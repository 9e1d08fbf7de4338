use vstd::prelude::*;
use crate::jvmsig::{encode_signature, encode_type, JvmSignature, JvmType, SigModel, TypeModel, types_view};
use vstd::string::StringExecFns;
use crate::text::push_char;
use crate::tables::{class_count, Intermediary, IntermediaryEntry, MojangMap, MojangMapEntry};

verus! {

/// The model of an optional name.
pub open spec fn name_view(o: Option<String>) -> Option<Seq<char>> {
    match o {
        Some(s) => Some(s@),
        None => None,
    }
}

/// The intermediary name of the obfuscated class `obf`: that of the first class record for it.
pub open spec fn int_class_name(es: Seq<IntermediaryEntry>, obf: Seq<char>) -> Option<Seq<char>>
    decreases es.len(),
{
    if es.len() == 0 {
        None
    } else {
        match es[0] {
            IntermediaryEntry::Class { obf_name, int_name } => if obf_name@ == obf {
                Some(int_name@)
            } else {
                int_class_name(es.drop_first(), obf)
            },
            _ => int_class_name(es.drop_first(), obf),
        }
    }
}

/// The intermediary name of the field `name` of the obfuscated class `cls`.
pub open spec fn int_field_name(es: Seq<IntermediaryEntry>, cls: Seq<char>, name: Seq<char>) -> Option<
    Seq<char>,
>
    decreases es.len(),
{
    if es.len() == 0 {
        None
    } else {
        match es[0] {
            IntermediaryEntry::Field { obf_class, obf_name, int_name, .. } => if obf_class@ == cls
                && obf_name@ == name {
                Some(int_name@)
            } else {
                int_field_name(es.drop_first(), cls, name)
            },
            _ => int_field_name(es.drop_first(), cls, name),
        }
    }
}

/// The intermediary name of the method `name` of the obfuscated class `cls`.
pub open spec fn int_method_name(es: Seq<IntermediaryEntry>, cls: Seq<char>, name: Seq<char>) -> Option<
    Seq<char>,
>
    decreases es.len(),
{
    if es.len() == 0 {
        None
    } else {
        match es[0] {
            IntermediaryEntry::Method { obf_class, obf_name, int_name, .. } => if obf_class@ == cls
                && obf_name@ == name {
                Some(int_name@)
            } else {
                int_method_name(es.drop_first(), cls, name)
            },
            _ => int_method_name(es.drop_first(), cls, name),
        }
    }
}

/// The obfuscated name of the deobfuscated class `deobf`.
pub open spec fn obf_class_name(es: Seq<MojangMapEntry>, deobf: Seq<char>) -> Option<Seq<char>>
    decreases es.len(),
{
    if es.len() == 0 {
        None
    } else {
        match es[0] {
            MojangMapEntry::Class { deobf_name, obf_name } => if deobf_name@ == deobf {
                Some(obf_name@)
            } else {
                obf_class_name(es.drop_first(), deobf)
            },
            _ => obf_class_name(es.drop_first(), deobf),
        }
    }
}

/// A name looked up, or the name itself where the lookup finds nothing.
pub open spec fn or_same(found: Option<Seq<char>>, n: Seq<char>) -> Seq<char> {
    match found {
        Some(o) => o,
        None => n,
    }
}

/// `t` with each class name replaced by its obfuscated name, where the table has one.
pub open spec fn deobf_to_obf(t: TypeModel, ms: Seq<MojangMapEntry>) -> TypeModel
    decreases t,
{
    match t {
        TypeModel::Class(n) => TypeModel::Class(or_same(obf_class_name(ms, n), n)),
        TypeModel::Array(e) => TypeModel::Array(Box::new(deobf_to_obf(*e, ms))),
        _ => t,
    }
}

/// `t` with each class name replaced by its intermediary name, where the table has one.
pub open spec fn obf_to_int(t: TypeModel, is: Seq<IntermediaryEntry>) -> TypeModel
    decreases t,
{
    match t {
        TypeModel::Class(n) => TypeModel::Class(or_same(int_class_name(is, n), n)),
        TypeModel::Array(e) => TypeModel::Array(Box::new(obf_to_int(*e, is))),
        _ => t,
    }
}

/// A signature with each of its types rewritten by `deobf_to_obf`.
pub open spec fn deobf_to_obf_signature(s: SigModel, ms: Seq<MojangMapEntry>) -> SigModel {
    SigModel {
        params: s.params.map_values(|t: TypeModel| deobf_to_obf(t, ms)),
        result: deobf_to_obf(s.result, ms),
    }
}

/// A signature with each of its types rewritten by `obf_to_int`.
pub open spec fn obf_to_int_signature(s: SigModel, is: Seq<IntermediaryEntry>) -> SigModel {
    SigModel {
        params: s.params.map_values(|t: TypeModel| obf_to_int(t, is)),
        result: obf_to_int(s.result, is),
    }
}

/// Looks up the intermediary name of an obfuscated class.
pub fn find_int_class(es: &Vec<IntermediaryEntry>, obf: &String) -> (r: Option<String>)
    ensures
        name_view(r) == int_class_name(es@, obf@),
{
    let mut i: usize = 0;
    assert(es@.skip(0) =~= es@);
    while i < es.len()
        invariant
            i <= es@.len(),
            int_class_name(es@, obf@) == int_class_name(es@.skip(i as int), obf@),
        decreases es@.len() - i,
    {
        assert(es@.skip(i as int).drop_first() =~= es@.skip(i + 1));
        assert(es@.skip(i as int)[0] == es@[i as int]);
        if let IntermediaryEntry::Class { obf_name, int_name } = &es[i] {
            if obf_name.eq(obf) {
                return Some(int_name.clone());
            }
        }
        i = i + 1;
    }
    None
}

/// Looks up the intermediary name of a field, by obfuscated class and name.
pub fn find_int_field(es: &Vec<IntermediaryEntry>, cls: &String, name: &String) -> (r: Option<String>)
    ensures
        name_view(r) == int_field_name(es@, cls@, name@),
{
    let mut i: usize = 0;
    assert(es@.skip(0) =~= es@);
    while i < es.len()
        invariant
            i <= es@.len(),
            int_field_name(es@, cls@, name@) == int_field_name(es@.skip(i as int), cls@, name@),
        decreases es@.len() - i,
    {
        assert(es@.skip(i as int).drop_first() =~= es@.skip(i + 1));
        assert(es@.skip(i as int)[0] == es@[i as int]);
        if let IntermediaryEntry::Field { obf_class, obf_name, int_name, .. } = &es[i] {
            if obf_class.eq(cls) && obf_name.eq(name) {
                return Some(int_name.clone());
            }
        }
        i = i + 1;
    }
    None
}

/// Looks up the intermediary name of a method, by obfuscated class and name.
pub fn find_int_method(es: &Vec<IntermediaryEntry>, cls: &String, name: &String) -> (r: Option<
    String,
>)
    ensures
        name_view(r) == int_method_name(es@, cls@, name@),
{
    let mut i: usize = 0;
    assert(es@.skip(0) =~= es@);
    while i < es.len()
        invariant
            i <= es@.len(),
            int_method_name(es@, cls@, name@) == int_method_name(es@.skip(i as int), cls@, name@),
        decreases es@.len() - i,
    {
        assert(es@.skip(i as int).drop_first() =~= es@.skip(i + 1));
        assert(es@.skip(i as int)[0] == es@[i as int]);
        if let IntermediaryEntry::Method { obf_class, obf_name, int_name, .. } = &es[i] {
            if obf_class.eq(cls) && obf_name.eq(name) {
                return Some(int_name.clone());
            }
        }
        i = i + 1;
    }
    None
}

/// Looks up the obfuscated name of a deobfuscated class.
pub fn find_obf_class(es: &Vec<MojangMapEntry>, deobf: &String) -> (r: Option<String>)
    ensures
        name_view(r) == obf_class_name(es@, deobf@),
{
    let mut i: usize = 0;
    assert(es@.skip(0) =~= es@);
    while i < es.len()
        invariant
            i <= es@.len(),
            obf_class_name(es@, deobf@) == obf_class_name(es@.skip(i as int), deobf@),
        decreases es@.len() - i,
    {
        assert(es@.skip(i as int).drop_first() =~= es@.skip(i + 1));
        assert(es@.skip(i as int)[0] == es@[i as int]);
        if let MojangMapEntry::Class { deobf_name, obf_name } = &es[i] {
            if deobf_name.eq(deobf) {
                return Some(obf_name.clone());
            }
        }
        i = i + 1;
    }
    None
}

/// Rewrites a deobfuscated type to the obfuscated namespace.
pub fn deobf_to_obf_type(t: &JvmType, mojang: &MojangMap) -> (r: JvmType)
    ensures
        r@ == deobf_to_obf(t@, mojang.entries@),
    decreases t,
{
    match t {
        JvmType::Class(deobf_name) => {
            match find_obf_class(&mojang.entries, deobf_name) {
                Some(o) => JvmType::Class(o),
                None => JvmType::Class(deobf_name.clone()),
            }
        },
        JvmType::Array(e) => {
            let inner: &JvmType = e;
            JvmType::Array(Box::new(deobf_to_obf_type(inner, mojang)))
        },
        _ => t.clone(),
    }
}

/// Rewrites an obfuscated type to the intermediary namespace.
pub fn obf_to_int_type(t: &JvmType, intermediary: &Intermediary) -> (r: JvmType)
    ensures
        r@ == obf_to_int(t@, intermediary.entries@),
    decreases t,
{
    match t {
        JvmType::Class(obf_name) => {
            match find_int_class(&intermediary.entries, obf_name) {
                Some(n) => JvmType::Class(n),
                None => JvmType::Class(obf_name.clone()),
            }
        },
        JvmType::Array(e) => {
            let inner: &JvmType = e;
            JvmType::Array(Box::new(obf_to_int_type(inner, intermediary)))
        },
        _ => t.clone(),
    }
}

/// Rewrites a deobfuscated signature to the obfuscated namespace.
pub fn deobf_to_obf_sig(sig: &JvmSignature, mojang: &MojangMap) -> (r: JvmSignature)
    ensures
        r@ == deobf_to_obf_signature(sig@, mojang.entries@),
{
    let result = deobf_to_obf_type(sig.result(), mojang);
    let ps = sig.params();
    let mut params: Vec<JvmType> = Vec::new();
    let mut i: usize = 0;
    while i < ps.len()
        invariant
            i <= ps@.len(),
            types_view(params@) == types_view(ps@).subrange(0, i as int).map_values(
                |t: TypeModel| deobf_to_obf(t, mojang.entries@),
            ),
        decreases ps@.len() - i,
    {
        let t = deobf_to_obf_type(&ps[i], mojang);
        assert(types_view(params@.push(t)) =~= types_view(params@).push(t@));
        params.push(t);
        assert(types_view(params@) =~= types_view(ps@).subrange(0, i + 1).map_values(
            |t: TypeModel| deobf_to_obf(t, mojang.entries@),
        ));
        i = i + 1;
    }
    assert(types_view(ps@).subrange(0, i as int) =~= types_view(ps@));
    let r = JvmSignature::from(params.as_slice(), &result);
    assert(r@ =~= deobf_to_obf_signature(sig@, mojang.entries@));
    r
}

/// Rewrites an obfuscated signature to the intermediary namespace.
pub fn obf_to_int_sig(sig: &JvmSignature, intermediary: &Intermediary) -> (r: JvmSignature)
    ensures
        r@ == obf_to_int_signature(sig@, intermediary.entries@),
{
    let result = obf_to_int_type(sig.result(), intermediary);
    let ps = sig.params();
    let mut params: Vec<JvmType> = Vec::new();
    let mut i: usize = 0;
    while i < ps.len()
        invariant
            i <= ps@.len(),
            types_view(params@) == types_view(ps@).subrange(0, i as int).map_values(
                |t: TypeModel| obf_to_int(t, intermediary.entries@),
            ),
        decreases ps@.len() - i,
    {
        let t = obf_to_int_type(&ps[i], intermediary);
        assert(types_view(params@.push(t)) =~= types_view(params@).push(t@));
        params.push(t);
        assert(types_view(params@) =~= types_view(ps@).subrange(0, i + 1).map_values(
            |t: TypeModel| obf_to_int(t, intermediary.entries@),
        ));
        i = i + 1;
    }
    assert(types_view(ps@).subrange(0, i as int) =~= types_view(ps@));
    let r = JvmSignature::from(params.as_slice(), &result);
    assert(r@ =~= obf_to_int_signature(sig@, intermediary.entries@));
    r
}

/// One member of a resolved class: a line to emit, or a member with no intermediary name.
#[derive(Debug)]
pub enum MemberLine {
    Field { int_name: String, deobf_name: String, int_type: JvmType },
    Method { int_name: String, deobf_name: String, int_sig: JvmSignature },
    UnresolvedField { deobf_class: String, deobf_name: String },
    UnresolvedMethod { deobf_class: String, deobf_name: String },
}

/// The model of a member outcome.
pub ghost enum MemberModel {
    Field { int_name: Seq<char>, deobf_name: Seq<char>, int_type: TypeModel },
    Method { int_name: Seq<char>, deobf_name: Seq<char>, int_sig: SigModel },
    UnresolvedField { deobf_class: Seq<char>, deobf_name: Seq<char> },
    UnresolvedMethod { deobf_class: Seq<char>, deobf_name: Seq<char> },
}

impl MemberLine {
    pub open spec fn view(&self) -> MemberModel {
        match self {
            MemberLine::Field { int_name, deobf_name, int_type } => MemberModel::Field {
                int_name: int_name@,
                deobf_name: deobf_name@,
                int_type: int_type@,
            },
            MemberLine::Method { int_name, deobf_name, int_sig } => MemberModel::Method {
                int_name: int_name@,
                deobf_name: deobf_name@,
                int_sig: int_sig@,
            },
            MemberLine::UnresolvedField { deobf_class, deobf_name } => MemberModel::UnresolvedField {
                deobf_class: deobf_class@,
                deobf_name: deobf_name@,
            },
            MemberLine::UnresolvedMethod { deobf_class, deobf_name } => MemberModel::UnresolvedMethod {
                deobf_class: deobf_class@,
                deobf_name: deobf_name@,
            },
        }
    }
}

/// A class whose intermediary name was found, with the outcome of each of its members.
#[derive(Debug)]
pub struct ClassMapping {
    pub int_name: String,
    pub deobf_name: String,
    pub members: Vec<MemberLine>,
}

/// What became of one deobfuscated class.
#[derive(Debug)]
pub enum ClassOutcome {
    Resolved(ClassMapping),
    Unresolved { deobf_name: String, obf_name: String },
}

/// The model of a class outcome.
pub ghost enum ClassModel {
    Resolved { int_name: Seq<char>, deobf_name: Seq<char>, members: Seq<MemberModel> },
    Unresolved { deobf_name: Seq<char>, obf_name: Seq<char> },
}

/// The models of a sequence of member outcomes.
pub open spec fn members_view(v: Seq<MemberLine>) -> Seq<MemberModel> {
    v.map_values(|m: MemberLine| m@)
}

impl ClassMapping {
    pub open spec fn view(&self) -> ClassModel {
        ClassModel::Resolved {
            int_name: self.int_name@,
            deobf_name: self.deobf_name@,
            members: members_view(self.members@),
        }
    }
}

impl ClassOutcome {
    pub open spec fn view(&self) -> ClassModel {
        match self {
            ClassOutcome::Resolved(c) => c@,
            ClassOutcome::Unresolved { deobf_name, obf_name } => ClassModel::Unresolved {
                deobf_name: deobf_name@,
                obf_name: obf_name@,
            },
        }
    }
}

/// The models of a sequence of class outcomes.
pub open spec fn outcomes_view(v: Seq<ClassOutcome>) -> Seq<ClassModel> {
    v.map_values(|c: ClassOutcome| c@)
}

/// Whether `e` is a field or method record of the deobfuscated class `d`.
pub open spec fn is_member_of(e: MojangMapEntry, d: Seq<char>) -> bool {
    match e {
        MojangMapEntry::Field { deobf_class, .. } => deobf_class@ == d,
        MojangMapEntry::Method { deobf_class, .. } => deobf_class@ == d,
        MojangMapEntry::Class { .. } => false,
    }
}

/// The outcome of a field or method record: its intermediary name is looked up by obfuscated
/// class and name among the intermediary records of its own kind, and its type or signature
/// goes through both renaming hops.
pub open spec fn member_model(
    e: MojangMapEntry,
    is: Seq<IntermediaryEntry>,
    ms: Seq<MojangMapEntry>,
) -> MemberModel {
    match e {
        MojangMapEntry::Field { deobf_class, obf_class, deobf_type, deobf_name, obf_name } => {
            match int_field_name(is, obf_class@, obf_name@) {
                Some(n) => MemberModel::Field {
                    int_name: n,
                    deobf_name: deobf_name@,
                    int_type: obf_to_int(deobf_to_obf(deobf_type@, ms), is),
                },
                None => MemberModel::UnresolvedField {
                    deobf_class: deobf_class@,
                    deobf_name: deobf_name@,
                },
            }
        },
        MojangMapEntry::Method { deobf_class, obf_class, deobf_sig, deobf_name, obf_name } => {
            match int_method_name(is, obf_class@, obf_name@) {
                Some(n) => MemberModel::Method {
                    int_name: n,
                    deobf_name: deobf_name@,
                    int_sig: obf_to_int_signature(deobf_to_obf_signature(deobf_sig@, ms), is),
                },
                None => MemberModel::UnresolvedMethod {
                    deobf_class: deobf_class@,
                    deobf_name: deobf_name@,
                },
            }
        },
        MojangMapEntry::Class { deobf_name, .. } => MemberModel::UnresolvedField {
            deobf_class: deobf_name@,
            deobf_name: deobf_name@,
        },
    }
}

/// The outcomes of the members of class `d` among `es`, in table order.
pub open spec fn members_of(
    es: Seq<MojangMapEntry>,
    d: Seq<char>,
    is: Seq<IntermediaryEntry>,
    ms: Seq<MojangMapEntry>,
) -> Seq<MemberModel>
    decreases es.len(),
{
    if es.len() == 0 {
        Seq::empty()
    } else if is_member_of(es.last(), d) {
        members_of(es.drop_last(), d, is, ms).push(member_model(es.last(), is, ms))
    } else {
        members_of(es.drop_last(), d, is, ms)
    }
}

/// The outcome of the class `d`, obfuscated as `o`: skipped where the intermediary table has
/// no name for `o`.
pub open spec fn class_model(
    d: Seq<char>,
    o: Seq<char>,
    is: Seq<IntermediaryEntry>,
    ms: Seq<MojangMapEntry>,
) -> ClassModel {
    match int_class_name(is, o) {
        Some(n) => ClassModel::Resolved { int_name: n, deobf_name: d, members: members_of(ms, d, is, ms) },
        None => ClassModel::Unresolved { deobf_name: d, obf_name: o },
    }
}

/// The outcome of each class record among `es`, in table order.
pub open spec fn outcomes(
    es: Seq<MojangMapEntry>,
    is: Seq<IntermediaryEntry>,
    ms: Seq<MojangMapEntry>,
) -> Seq<ClassModel>
    decreases es.len(),
{
    if es.len() == 0 {
        Seq::empty()
    } else {
        match es.last() {
            MojangMapEntry::Class { deobf_name, obf_name } => outcomes(es.drop_last(), is, ms).push(
                class_model(deobf_name@, obf_name@, is, ms),
            ),
            _ => outcomes(es.drop_last(), is, ms),
        }
    }
}

/// Resolves one field or method record.
pub fn resolve_member(e: &MojangMapEntry, intermediary: &Intermediary, mojang: &MojangMap) -> (r:
    MemberLine)
    requires
        !(e is Class),
    ensures
        r@ == member_model(*e, intermediary.entries@, mojang.entries@),
{
    match e {
        MojangMapEntry::Field { deobf_class, obf_class, deobf_type, deobf_name, obf_name } => {
            match find_int_field(&intermediary.entries, obf_class, obf_name) {
                Some(n) => {
                    let obf_type = deobf_to_obf_type(deobf_type, mojang);
                    MemberLine::Field {
                        int_name: n,
                        deobf_name: deobf_name.clone(),
                        int_type: obf_to_int_type(&obf_type, intermediary),
                    }
                },
                None => MemberLine::UnresolvedField {
                    deobf_class: deobf_class.clone(),
                    deobf_name: deobf_name.clone(),
                },
            }
        },
        MojangMapEntry::Method { deobf_class, obf_class, deobf_sig, deobf_name, obf_name } => {
            match find_int_method(&intermediary.entries, obf_class, obf_name) {
                Some(n) => {
                    let obf_sig = deobf_to_obf_sig(deobf_sig, mojang);
                    MemberLine::Method {
                        int_name: n,
                        deobf_name: deobf_name.clone(),
                        int_sig: obf_to_int_sig(&obf_sig, intermediary),
                    }
                },
                None => MemberLine::UnresolvedMethod {
                    deobf_class: deobf_class.clone(),
                    deobf_name: deobf_name.clone(),
                },
            }
        },
        MojangMapEntry::Class { .. } => {
            MemberLine::UnresolvedField { deobf_class: String::new(), deobf_name: String::new() }
        },
    }
}

/// Resolves the class `deobf_name`, obfuscated as `obf_name`, and each of its members.
pub fn resolve_class(
    deobf_name: &String,
    obf_name: &String,
    intermediary: &Intermediary,
    mojang: &MojangMap,
) -> (r: ClassOutcome)
    ensures
        r@ == class_model(deobf_name@, obf_name@, intermediary.entries@, mojang.entries@),
{
    match find_int_class(&intermediary.entries, obf_name) {
        None => ClassOutcome::Unresolved { deobf_name: deobf_name.clone(), obf_name: obf_name.clone() },
        Some(int_name) => {
            let es = &mojang.entries;
            let mut members: Vec<MemberLine> = Vec::new();
            let mut i: usize = 0;
            assert(es@.subrange(0, 0) =~= Seq::<MojangMapEntry>::empty());
            assert(members_view(members@) =~= Seq::<MemberModel>::empty());
            while i < es.len()
                invariant
                    es == &mojang.entries,
                    i <= es@.len(),
                    members_view(members@) == members_of(
                        es@.subrange(0, i as int),
                        deobf_name@,
                        intermediary.entries@,
                        mojang.entries@,
                    ),
                decreases es@.len() - i,
            {
                let ghost pre = es@.subrange(0, i as int);
                assert(es@.subrange(0, i + 1).drop_last() =~= pre);
                assert(es@.subrange(0, i + 1).last() == es@[i as int]);
                let e = &es[i];
                let member = match e {
                    MojangMapEntry::Field { deobf_class, .. } => deobf_class.eq(deobf_name),
                    MojangMapEntry::Method { deobf_class, .. } => deobf_class.eq(deobf_name),
                    MojangMapEntry::Class { .. } => false,
                };
                if member {
                    let m = resolve_member(e, intermediary, mojang);
                    assert(members_view(members@.push(m)) =~= members_view(members@).push(m@));
                    members.push(m);
                }
                i = i + 1;
            }
            assert(es@.subrange(0, es@.len() as int) =~= es@);
            ClassOutcome::Resolved(ClassMapping { int_name, deobf_name: deobf_name.clone(), members })
        },
    }
}

/// Resolves every class record of the deobfuscation table, in table order.
pub fn resolve(intermediary: &Intermediary, mojang: &MojangMap) -> (r: Vec<ClassOutcome>)
    ensures
        outcomes_view(r@) == outcomes(mojang.entries@, intermediary.entries@, mojang.entries@),
{
    let es = &mojang.entries;
    let mut out: Vec<ClassOutcome> = Vec::new();
    let mut i: usize = 0;
    assert(es@.subrange(0, 0) =~= Seq::<MojangMapEntry>::empty());
    assert(outcomes_view(out@) =~= Seq::<ClassModel>::empty());
    while i < es.len()
        invariant
            es == &mojang.entries,
            i <= es@.len(),
            outcomes_view(out@) == outcomes(
                es@.subrange(0, i as int),
                intermediary.entries@,
                mojang.entries@,
            ),
        decreases es@.len() - i,
    {
        assert(es@.subrange(0, i + 1).drop_last() =~= es@.subrange(0, i as int));
        assert(es@.subrange(0, i + 1).last() == es@[i as int]);
        if let MojangMapEntry::Class { deobf_name, obf_name } = &es[i] {
            let c = resolve_class(deobf_name, obf_name, intermediary, mojang);
            assert(outcomes_view(out@.push(c)) =~= outcomes_view(out@).push(c@));
            out.push(c);
        }
        i = i + 1;
    }
    assert(es@.subrange(0, es@.len() as int) =~= es@);
    out
}

/// The output line of a member: resolved fields and methods give one, unresolved ones none.
pub open spec fn member_text(m: MemberModel) -> Seq<char> {
    match m {
        MemberModel::Field { int_name, deobf_name, int_type } => "\tFIELD "@ + int_name + seq![' ']
            + deobf_name + seq![' '] + encode_type(int_type) + seq!['\n'],
        MemberModel::Method { int_name, deobf_name, int_sig } => "\tMETHOD "@ + int_name + seq![' ']
            + deobf_name + seq![' '] + encode_signature(int_sig) + seq!['\n'],
        _ => Seq::empty(),
    }
}

/// The output lines of a sequence of members, in order.
pub open spec fn members_text(ms: Seq<MemberModel>) -> Seq<char>
    decreases ms.len(),
{
    if ms.len() == 0 {
        Seq::empty()
    } else {
        members_text(ms.drop_last()) + member_text(ms.last())
    }
}

/// The content of the mapping file of a class: its header line, then its members' lines.
pub open spec fn class_text(c: ClassModel) -> Seq<char> {
    match c {
        ClassModel::Resolved { int_name, deobf_name, members } => "CLASS "@ + int_name + seq![' ']
            + deobf_name + seq!['\n'] + members_text(members),
        ClassModel::Unresolved { .. } => Seq::empty(),
    }
}

fn push_words(out: &mut String, key: &str, int_name: &String, deobf_name: &String)
    ensures
        final(out)@ == old(out)@ + key@ + int_name@ + seq![' '] + deobf_name@,
{
    out.append(key);
    out.append(int_name.as_str());
    push_char(out, ' ');
    out.append(deobf_name.as_str());
    assert(final(out)@ =~= old(out)@ + key@ + int_name@ + seq![' '] + deobf_name@);
}

impl ClassMapping {
    /// The content of this class's mapping file.
    pub fn to_text(&self) -> (r: String)
        ensures
            r@ == class_text(self@),
    {
        let mut out = String::new();
        push_words(&mut out, "CLASS ", &self.int_name, &self.deobf_name);
        push_char(&mut out, '\n');
        let ghost head = out@;
        let mut i: usize = 0;
        assert(members_view(self.members@.subrange(0, 0)) =~= Seq::<MemberModel>::empty());
        assert(out@ =~= head + members_text(members_view(self.members@.subrange(0, 0))));
        while i < self.members.len()
            invariant
                i <= self.members@.len(),
                out@ == head + members_text(members_view(self.members@.subrange(0, i as int))),
            decreases self.members@.len() - i,
        {
            let ghost before = out@;
            let ghost ms = members_view(self.members@.subrange(0, i + 1));
            assert(ms.drop_last() =~= members_view(self.members@.subrange(0, i as int)));
            assert(ms.last() == self.members@[i as int]@);
            match &self.members[i] {
                MemberLine::Field { int_name, deobf_name, int_type } => {
                    push_words(&mut out, "\tFIELD ", int_name, deobf_name);
                    push_char(&mut out, ' ');
                    int_type.push_descriptor(&mut out);
                    push_char(&mut out, '\n');
                },
                MemberLine::Method { int_name, deobf_name, int_sig } => {
                    push_words(&mut out, "\tMETHOD ", int_name, deobf_name);
                    push_char(&mut out, ' ');
                    let d = int_sig.to_descriptor();
                    out.append(d.as_str());
                    push_char(&mut out, '\n');
                },
                _ => {},
            }
            assert(out@ =~= before + member_text(ms.last()));
            i = i + 1;
        }
        assert(self.members@.subrange(0, self.members@.len() as int) =~= self.members@);
        assert(out@ =~= class_text(self@));
        out
    }

    /// Where this class's mapping file goes, relative to the output directory: the
    /// deobfuscated name, whose `/`-separated segments are directories, and `.mapping`.
    pub fn file_path(&self) -> (r: String)
        ensures
            r@ == self.deobf_name@ + ".mapping"@,
    {
        let mut p = self.deobf_name.clone();
        p.append(".mapping");
        p
    }
}

/// There is one outcome per class record, and the outcome of each class depends on its own
/// record alone: an unresolved class leaves the outcomes of the classes around it unchanged.
pub proof fn lemma_outcomes_split(
    a: Seq<MojangMapEntry>,
    b: Seq<MojangMapEntry>,
    is: Seq<IntermediaryEntry>,
    ms: Seq<MojangMapEntry>,
)
    ensures
        outcomes(a + b, is, ms) == outcomes(a, is, ms) + outcomes(b, is, ms),
        outcomes(a, is, ms).len() == class_count(a),
    decreases b.len(),
{
    lemma_outcomes_len(a, is, ms);
    if b.len() == 0 {
        assert(a + b =~= a);
        assert(outcomes(a, is, ms) + outcomes(b, is, ms) =~= outcomes(a, is, ms));
    } else {
        lemma_outcomes_split(a, b.drop_last(), is, ms);
        assert((a + b).drop_last() =~= a + b.drop_last());
        assert((a + b).last() == b.last());
        assert(outcomes(a + b, is, ms) =~= outcomes(a, is, ms) + outcomes(b, is, ms));
    }
}

proof fn lemma_outcomes_len(a: Seq<MojangMapEntry>, is: Seq<IntermediaryEntry>, ms: Seq<MojangMapEntry>)
    ensures
        outcomes(a, is, ms).len() == class_count(a),
    decreases a.len(),
{
    if a.len() > 0 {
        lemma_outcomes_len(a.drop_last(), is, ms);
    }
}

} // verus!
