use mojang2tiny::jvmsig::{DescriptorError, JvmSignature, JvmType};
use mojang2tiny::resolve::{resolve, ClassOutcome, MemberLine};
use mojang2tiny::shapes::LineShapes;
use mojang2tiny::tables::{Intermediary, IntermediaryEntry, LoadError, MojangLine, MojangMap, MojangMapEntry};

fn chars(s: &str) -> Vec<char> {
    s.chars().collect()
}

fn class_line(d: &str, o: &str) -> MojangLine {
    MojangLine::Class { deobf_name: d.to_string(), obf_name: o.to_string() }
}

fn field_line(t: &str, d: &str, o: &str) -> MojangLine {
    MojangLine::Field { deobf_type: t.to_string(), deobf_name: d.to_string(), obf_name: o.to_string() }
}

fn method_line(r: &str, d: &str, p: &str, o: &str) -> MojangLine {
    MojangLine::Method {
        deobf_result: r.to_string(),
        deobf_name: d.to_string(),
        deobf_params: p.to_string(),
        obf_name: o.to_string(),
    }
}

fn decode(s: &str) -> JvmType {
    let c = chars(s);
    let (t, end) = JvmType::read(&c, 0).unwrap();
    assert_eq!(end, c.len());
    t
}

#[test]
fn type_round_trip() {
    for d in ["V", "Z", "B", "S", "C", "I", "J", "F", "D", "Ljava/lang/String;", "[[I", "[[Lcom/Foo;"] {
        assert_eq!(decode(d).to_descriptor(), d);
    }
    let t = JvmType::Array(Box::new(JvmType::Class("a/B".to_string())));
    assert_eq!(decode(&t.to_descriptor()).to_descriptor(), "[La/B;");
}

#[test]
fn signature_round_trip() {
    for d in ["()V", "(ILjava/lang/String;[[D)Lcom/Foo;", "([I)[Z"] {
        assert_eq!(JvmSignature::from_jvm_sig(d).unwrap().to_descriptor(), d);
    }
    let sig = JvmSignature::from(&[JvmType::Int, JvmType::Class("x/Y".to_string())], &JvmType::Void);
    let again = JvmSignature::from_jvm_sig(&sig.to_descriptor()).unwrap();
    assert_eq!(again.to_descriptor(), "(ILx/Y;)V");
    assert_eq!(again.params().len(), 2);
    assert!(matches!(again.result(), JvmType::Void));
}

#[test]
fn readable_forms() {
    assert!(matches!(JvmType::from_readable("int[]"), JvmType::Array(e) if matches!(*e, JvmType::Int)));
    match JvmType::from_readable("java.lang.String") {
        JvmType::Class(n) => assert_eq!(n, "java/lang/String"),
        _ => panic!("expected a class type"),
    }
    assert_eq!(JvmType::from_readable("java.lang.String[][]").to_descriptor(), "[[Ljava/lang/String;");
    assert_eq!(JvmType::from_readable("boolean").to_descriptor(), "Z");
    let sig = JvmSignature::from_readable("void", "int, java.lang.String[]");
    assert_eq!(sig.to_descriptor(), "(I[Ljava/lang/String;)V");
    assert_eq!(JvmSignature::from_readable("long", "").to_descriptor(), "()J");
}

#[test]
fn array_nesting() {
    let t = decode("[[I");
    match &t {
        JvmType::Array(a) => match a.as_ref() {
            JvmType::Array(b) => assert!(matches!(b.as_ref(), JvmType::Int)),
            _ => panic!("expected an array"),
        },
        _ => panic!("expected an array"),
    }
    assert_eq!(t.to_descriptor(), "[[I");
}

#[test]
fn malformed_descriptors() {
    assert!(matches!(JvmType::read(&chars("X"), 0), Err(DescriptorError::MalformedType)));
    assert!(matches!(JvmType::read(&chars("Lfoo"), 0), Err(DescriptorError::MalformedType)));
    assert!(matches!(JvmType::read(&chars(""), 0), Err(DescriptorError::MalformedType)));
    for d in ["I)V", "(I", "(I)", "(I)VV", "(X)V", ""] {
        assert!(matches!(JvmSignature::from_jvm_sig(d), Err(DescriptorError::MalformedSignature)));
    }
}

#[test]
fn class_lookup_by_obfuscated_name() {
    let i = Intermediary::load("CLASS\ta\tA\n").unwrap();
    let m = MojangMap::from_lines(&vec![class_line("com.Foo", "a")]).unwrap();
    let out = resolve(&i, &m);
    assert_eq!(out.len(), 1);
    match &out[0] {
        ClassOutcome::Resolved(c) => {
            assert_eq!(c.int_name, "A");
            assert_eq!(c.deobf_name, "com/Foo");
        }
        _ => panic!("expected a resolved class"),
    }
}

#[test]
fn unresolved_class_is_skipped() {
    let i = Intermediary::load("CLASS\tb\tB\n").unwrap();
    let m = MojangMap::from_lines(&vec![
        class_line("com.Foo", "a"),
        field_line("int", "x", "y"),
        class_line("com.Bar", "b"),
    ])
    .unwrap();
    let out = resolve(&i, &m);
    assert_eq!(out.len(), 2);
    match &out[0] {
        ClassOutcome::Unresolved { deobf_name, obf_name } => {
            assert_eq!(deobf_name, "com/Foo");
            assert_eq!(obf_name, "a");
        }
        _ => panic!("expected an unresolved class"),
    }
    match &out[1] {
        ClassOutcome::Resolved(c) => assert_eq!(c.to_text(), "CLASS B com/Bar\n"),
        _ => panic!("expected a resolved class"),
    }
}

#[test]
fn two_hop_type_rewrite() {
    let i = Intermediary::load("CLASS\ta\tA\nCLASS\tb\tB\nFIELD\tb\tLa;\tc\tC\n").unwrap();
    let m = MojangMap::from_lines(&vec![
        class_line("com.Foo", "a"),
        class_line("com.Bar", "b"),
        field_line("com.Foo", "foo", "c"),
    ])
    .unwrap();
    let out = resolve(&i, &m);
    match &out[1] {
        ClassOutcome::Resolved(c) => {
            assert_eq!(c.to_text(), "CLASS B com/Bar\n\tFIELD C foo LA;\n");
        }
        _ => panic!("expected a resolved class"),
    }
}

#[test]
fn method_uses_method_table() {
    let i = Intermediary::load("CLASS\ta\tA\nFIELD\ta\tI\tm\tWRONG\nMETHOD\ta\t(La;[La;)V\tm\tM\n").unwrap();
    let m = MojangMap::from_lines(&vec![
        class_line("com.Foo", "a"),
        method_line("void", "run", "com.Foo,com.Foo[]", "m"),
        method_line("void", "gone", "", "z"),
        field_line("int", "lost", "q"),
    ])
    .unwrap();
    let out = resolve(&i, &m);
    match &out[0] {
        ClassOutcome::Resolved(c) => {
            assert_eq!(c.members.len(), 3);
            assert!(matches!(&c.members[1], MemberLine::UnresolvedMethod { deobf_name, .. } if deobf_name == "gone"));
            assert!(matches!(&c.members[2], MemberLine::UnresolvedField { deobf_name, .. } if deobf_name == "lost"));
            assert_eq!(c.to_text(), "CLASS A com/Foo\n\tMETHOD M run (LA;[LA;)V\n");
        }
        _ => panic!("expected a resolved class"),
    }
}

#[test]
fn scoping_rule() {
    let m = MojangMap::from_lines(&vec![
        class_line("com.Foo", "a"),
        field_line("int", "x", "b"),
        class_line("com.Bar", "c"),
        method_line("void", "<init>", "", "<init>"),
    ])
    .unwrap();
    assert_eq!(m.entries.len(), 4);
    assert!(matches!(&m.entries[1], MojangMapEntry::Field { deobf_class, obf_class, .. }
        if deobf_class == "com/Foo" && obf_class == "a"));
    assert!(matches!(&m.entries[3], MojangMapEntry::Method { deobf_class, obf_class, .. }
        if deobf_class == "com/Bar" && obf_class == "c"));
    let e = MojangMap::from_lines(&vec![MojangLine::Comment, field_line("int", "x", "b")]);
    assert!(matches!(e, Err(LoadError::MemberBeforeClass { line: 1 })));
    let e = MojangMap::from_lines(&vec![method_line("void", "f", "", "g")]);
    assert!(matches!(e, Err(LoadError::MemberBeforeClass { line: 0 })));
    let e = MojangMap::from_lines(&vec![class_line("a", "b"), MojangLine::Unmatched]);
    assert!(matches!(e, Err(LoadError::SyntaxError { line: 1 })));
}

#[test]
fn multi_source_concatenation() {
    let mut all = MojangMap::empty();
    assert_eq!(all.entries.len(), 0);
    let first = MojangMap::from_lines(&vec![class_line("com.A", "a"), field_line("int", "x", "y")]).unwrap();
    let second = MojangMap::from_lines(&vec![class_line("com.B", "b"), class_line("com.C", "c")]).unwrap();
    all.combine(first);
    all.combine(second);
    let names: Vec<&str> = all
        .entries
        .iter()
        .filter_map(|e| match e {
            MojangMapEntry::Class { deobf_name, .. } => Some(deobf_name.as_str()),
            _ => None,
        })
        .collect();
    assert_eq!(names, vec!["com/A", "com/B", "com/C"]);
    assert_eq!(all.entries.len(), 4);
}

#[test]
fn end_to_end() {
    let i = Intermediary::load("CLASS\ta\tA\nFIELD\ta\tI\tf\tF\n").unwrap();
    let m = MojangMap::from_lines(&vec![class_line("com.Foo", "a"), field_line("int", "field", "f")]).unwrap();
    let out = resolve(&i, &m);
    assert_eq!(out.len(), 1);
    match &out[0] {
        ClassOutcome::Resolved(c) => {
            assert_eq!(c.file_path(), "com/Foo.mapping");
            assert_eq!(c.to_text(), "CLASS A com/Foo\n\tFIELD F field I\n");
        }
        _ => panic!("expected a resolved class"),
    }
}

#[test]
fn intermediary_parsing() {
    let i = Intermediary::load("v1\tofficial\tintermediary\n# note\nCLASS\ta\tA\nMETHOD\ta\t(I)V\tb\tB").unwrap();
    assert_eq!(i.entries.len(), 2);
    assert!(matches!(&i.entries[1], IntermediaryEntry::Method { obf_sig, int_name, .. }
        if int_name == "B" && obf_sig.to_descriptor() == "(I)V"));
    assert_eq!(Intermediary::load("").unwrap().entries.len(), 0);
    assert!(matches!(Intermediary::load("CLASS\ta\tA\nBOGUS\tx\n"), Err(LoadError::SyntaxError { line: 1 })));
    assert!(matches!(Intermediary::load("CLASS\ta\n"), Err(LoadError::SyntaxError { line: 0 })));
    assert!(matches!(Intermediary::load("FIELD\ta\tX\tb\tB\n"), Err(LoadError::MalformedType { line: 0 })));
    assert!(matches!(Intermediary::load("METHOD\ta\tI\tb\tB\n"), Err(LoadError::MalformedSignature { line: 0 })));
}

#[test]
fn end_to_end_from_text() {
    let shapes = LineShapes::new().unwrap();
    let i = Intermediary::load("CLASS\ta\tA\nFIELD\ta\tI\tf\tF\n").unwrap();
    let m = MojangMap::load("com.Foo -> a:\n    int field -> f\n", &shapes).unwrap();
    let out = resolve(&i, &m);
    assert_eq!(out.len(), 1);
    match &out[0] {
        ClassOutcome::Resolved(c) => {
            assert_eq!(c.file_path(), "com/Foo.mapping");
            assert_eq!(c.to_text(), "CLASS A com/Foo\n\tFIELD F field I\n");
        }
        _ => panic!("expected a resolved class"),
    }
}

#[test]
fn line_shapes() {
    let shapes = LineShapes::new().unwrap();
    assert!(matches!(shapes.classify("# a comment"), MojangLine::Comment));
    assert!(matches!(shapes.classify("com.Foo -> a:"),
        MojangLine::Class { deobf_name, obf_name } if deobf_name == "com.Foo" && obf_name == "a"));
    assert!(matches!(shapes.classify("    java.lang.String[] names -> b"),
        MojangLine::Field { deobf_type, deobf_name, obf_name }
        if deobf_type == "java.lang.String[]" && deobf_name == "names" && obf_name == "b"));
    assert!(matches!(shapes.classify("    12:14:void <init>(int,com.Foo) -> <init>"),
        MojangLine::Method { deobf_result, deobf_name, deobf_params, obf_name }
        if deobf_result == "void" && deobf_name == "<init>" && deobf_params == "int,com.Foo" && obf_name == "<init>"));
    assert!(matches!(shapes.classify("    int run() -> a"),
        MojangLine::Method { deobf_params, .. } if deobf_params.is_empty()));
    assert!(matches!(shapes.classify("garbage"), MojangLine::Unmatched));
}

#[test]
fn mojang_load_errors() {
    let shapes = LineShapes::new().unwrap();
    assert!(matches!(MojangMap::load("    int x -> y\n", &shapes), Err(LoadError::MemberBeforeClass { line: 0 })));
    assert!(matches!(MojangMap::load("a -> b:\nnot a line\n", &shapes), Err(LoadError::SyntaxError { line: 1 })));
    let m = MojangMap::load("# header\na.B -> c:\n    void f(int,long) -> g\nd.E -> h:", &shapes).unwrap();
    assert_eq!(m.entries.len(), 3);
    assert!(matches!(&m.entries[1], MojangMapEntry::Method { deobf_sig, deobf_class, .. }
        if deobf_sig.to_descriptor() == "(IJ)V" && deobf_class == "a/B"));
}

#[test]
fn structural_equality() {
    assert_eq!(JvmType::from_readable("int[]"), JvmType::Array(Box::new(JvmType::Int)));
    assert_eq!(JvmType::from_readable("java.lang.String"), JvmType::Class("java/lang/String".to_string()));
    assert_ne!(JvmType::from_readable("int[][]"), JvmType::Array(Box::new(JvmType::Int)));
    let t = JvmType::Array(Box::new(JvmType::Array(Box::new(JvmType::Class("a/b/C".to_string())))));
    assert_eq!(decode(&t.to_descriptor()), t);
    let sig = JvmSignature::from(&[JvmType::Long, t.clone()], &JvmType::Boolean);
    assert_eq!(JvmSignature::from_jvm_sig(&sig.to_descriptor()).unwrap(), sig);
    assert_ne!(JvmSignature::from_jvm_sig("(J)Z").unwrap(), sig);
    assert_eq!(JvmSignature::from_readable("boolean", "long,a.b.C[][]"), sig);
}
