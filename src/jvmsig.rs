use vstd::prelude::*;
use vstd::string::StringExecFns;
use crate::text::{chars_of, push_char, split_chars, split_on, string_of, trim_blank, trim_range};

verus! {

/// A JVM type.
#[derive(Debug)]
pub enum JvmType {
    Void,
    Boolean,
    Byte,
    Short,
    Char,
    Int,
    Long,
    Float,
    Double,
    Class(String),
    Array(Box<JvmType>),
}

/// The mathematical model of a JVM type: class names as character sequences.
pub ghost enum TypeModel {
    Void,
    Boolean,
    Byte,
    Short,
    Char,
    Int,
    Long,
    Float,
    Double,
    Class(Seq<char>),
    Array(Box<TypeModel>),
}

/// Why a descriptor could not be decoded.
#[derive(Clone, Copy, Debug, PartialEq, Eq)]
pub enum DescriptorError {
    MalformedType,
    MalformedSignature,
}

impl JvmType {
    pub open spec fn view(&self) -> TypeModel
        decreases self,
    {
        match self {
            JvmType::Void => TypeModel::Void,
            JvmType::Boolean => TypeModel::Boolean,
            JvmType::Byte => TypeModel::Byte,
            JvmType::Short => TypeModel::Short,
            JvmType::Char => TypeModel::Char,
            JvmType::Int => TypeModel::Int,
            JvmType::Long => TypeModel::Long,
            JvmType::Float => TypeModel::Float,
            JvmType::Double => TypeModel::Double,
            JvmType::Class(n) => TypeModel::Class(n@),
            JvmType::Array(e) => TypeModel::Array(Box::new(e.view())),
        }
    }
}

impl Clone for JvmType {
    fn clone(&self) -> (r: JvmType)
        ensures
            r@ == self@,
        decreases self,
    {
        match self {
            JvmType::Void => JvmType::Void,
            JvmType::Boolean => JvmType::Boolean,
            JvmType::Byte => JvmType::Byte,
            JvmType::Short => JvmType::Short,
            JvmType::Char => JvmType::Char,
            JvmType::Int => JvmType::Int,
            JvmType::Long => JvmType::Long,
            JvmType::Float => JvmType::Float,
            JvmType::Double => JvmType::Double,
            JvmType::Class(n) => JvmType::Class(n.clone()),
            JvmType::Array(e) => {
                let inner: &JvmType = e;
                JvmType::Array(Box::new(inner.clone()))
            },
        }
    }
}

impl PartialEq for JvmType {
    fn eq(&self, o: &JvmType) -> (r: bool)
        decreases self,
    {
        match (self, o) {
            (JvmType::Class(a), JvmType::Class(b)) => a.eq(b),
            (JvmType::Array(a), JvmType::Array(b)) => {
                let x: &JvmType = a;
                let y: &JvmType = b;
                x.eq(y)
            },
            (JvmType::Void, JvmType::Void) => true,
            (JvmType::Boolean, JvmType::Boolean) => true,
            (JvmType::Byte, JvmType::Byte) => true,
            (JvmType::Short, JvmType::Short) => true,
            (JvmType::Char, JvmType::Char) => true,
            (JvmType::Int, JvmType::Int) => true,
            (JvmType::Long, JvmType::Long) => true,
            (JvmType::Float, JvmType::Float) => true,
            (JvmType::Double, JvmType::Double) => true,
            _ => false,
        }
    }
}

impl vstd::std_specs::cmp::PartialEqSpecImpl for JvmType {
    open spec fn obeys_eq_spec() -> bool {
        true
    }

    open spec fn eq_spec(&self, o: &JvmType) -> bool {
        self@ == o@
    }
}

/// The one-letter descriptor code of a primitive type.
pub open spec fn primitive_code(t: TypeModel) -> Option<char> {
    match t {
        TypeModel::Void => Some('V'),
        TypeModel::Boolean => Some('Z'),
        TypeModel::Byte => Some('B'),
        TypeModel::Short => Some('S'),
        TypeModel::Char => Some('C'),
        TypeModel::Int => Some('I'),
        TypeModel::Long => Some('J'),
        TypeModel::Float => Some('F'),
        TypeModel::Double => Some('D'),
        _ => None,
    }
}

/// The primitive type with a given one-letter descriptor code.
pub open spec fn primitive_of_code(c: char) -> Option<TypeModel> {
    if c == 'V' { Some(TypeModel::Void) }
    else if c == 'Z' { Some(TypeModel::Boolean) }
    else if c == 'B' { Some(TypeModel::Byte) }
    else if c == 'S' { Some(TypeModel::Short) }
    else if c == 'C' { Some(TypeModel::Char) }
    else if c == 'I' { Some(TypeModel::Int) }
    else if c == 'J' { Some(TypeModel::Long) }
    else if c == 'F' { Some(TypeModel::Float) }
    else if c == 'D' { Some(TypeModel::Double) }
    else { None }
}

/// The descriptor form of a type (`I`, `Ljava/lang/String;`, `[[D`).
pub open spec fn encode_type(t: TypeModel) -> Seq<char>
    decreases t,
{
    match t {
        TypeModel::Class(n) => seq!['L'] + n + seq![';'],
        TypeModel::Array(e) => seq!['['] + encode_type(*e),
        _ => seq![primitive_code(t).unwrap()],
    }
}

/// A type is well formed when no class name in it holds `;`, which ends a class name in
/// descriptor form.
pub open spec fn well_formed(t: TypeModel) -> bool
    decreases t,
{
    match t {
        TypeModel::Class(n) => !n.contains(';'),
        TypeModel::Array(e) => well_formed(*e),
        _ => true,
    }
}

/// The position of the first `c` in `s`.
pub open spec fn find_char(s: Seq<char>, c: char) -> Option<int>
    decreases s.len(),
{
    if s.len() == 0 {
        None
    } else if s[0] == c {
        Some(0)
    } else {
        match find_char(s.drop_first(), c) {
            Some(i) => Some(i + 1),
            None => None,
        }
    }
}

/// Decodes one type from the front of `s`: the type and how many characters it takes.
pub open spec fn decode_type(s: Seq<char>) -> Option<(TypeModel, int)>
    decreases s.len(),
{
    if s.len() == 0 {
        None
    } else if s[0] == 'L' {
        match find_char(s.drop_first(), ';') {
            Some(i) => Some((TypeModel::Class(s.subrange(1, i + 1)), i + 2)),
            None => None,
        }
    } else if s[0] == '[' {
        match decode_type(s.drop_first()) {
            Some((e, n)) => Some((TypeModel::Array(Box::new(e)), n + 1)),
            None => None,
        }
    } else {
        match primitive_of_code(s[0]) {
            Some(t) => Some((t, 1)),
            None => None,
        }
    }
}

pub proof fn lemma_find_char_bounds(s: Seq<char>, c: char)
    ensures
        match find_char(s, c) {
            Some(i) => 0 <= i < s.len() && s[i] == c && !s.subrange(0, i).contains(c),
            None => !s.contains(c),
        },
    decreases s.len(),
{
    if s.len() > 0 && s[0] != c {
        lemma_find_char_bounds(s.drop_first(), c);
        match find_char(s.drop_first(), c) {
            Some(i) => {
                assert(s.subrange(0, i + 1) =~= seq![s[0]] + s.drop_first().subrange(0, i));
                if s.subrange(0, i + 1).contains(c) {
                    let k = choose|k: int| 0 <= k < i + 1 && #[trigger] s.subrange(0, i + 1)[k] == c;
                    assert(s.drop_first().subrange(0, i)[k - 1] == c);
                }
            },
            None => {
                if s.contains(c) {
                    let k = choose|k: int| 0 <= k < s.len() && #[trigger] s[k] == c;
                    assert(s.drop_first()[k - 1] == c);
                }
            },
        }
    } else if s.len() > 0 {
        assert(s.subrange(0, 0).len() == 0);
    }
}

pub proof fn lemma_find_char_first(s: Seq<char>, c: char, i: int)
    requires
        0 <= i < s.len(),
        s[i] == c,
        !s.subrange(0, i).contains(c),
    ensures
        find_char(s, c) == Some(i),
{
    lemma_find_char_bounds(s, c);
    match find_char(s, c) {
        Some(j) => {
            if j < i {
                assert(s.subrange(0, i)[j] == c);
            } else if j > i {
                assert(s.subrange(0, j)[i] == c);
            }
        },
        None => {
            assert(s.contains(c)) by {
                assert(s[i] == c);
            }
        },
    }
}

pub proof fn lemma_decode_type_len(s: Seq<char>)
    ensures
        match decode_type(s) {
            Some((t, n)) => 1 <= n <= s.len(),
            None => true,
        },
    decreases s.len(),
{
    if s.len() > 0 {
        if s[0] == 'L' {
            lemma_find_char_bounds(s.drop_first(), ';');
        } else if s[0] == '[' {
            lemma_decode_type_len(s.drop_first());
        }
    }
}

/// Decoding the descriptor form of a well-formed type gives that type back, whatever follows it.
pub proof fn lemma_type_round_trip(t: TypeModel, rest: Seq<char>)
    requires
        well_formed(t),
    ensures
        decode_type(encode_type(t) + rest) == Some((t, encode_type(t).len() as int)),
    decreases t,
{
    let s = encode_type(t) + rest;
    match t {
        TypeModel::Class(n) => {
            let d = s.drop_first();
            assert(d =~= n + seq![';'] + rest);
            assert(d[n.len() as int] == ';');
            assert(d.subrange(0, n.len() as int) =~= n);
            lemma_find_char_first(d, ';', n.len() as int);
            assert(s.subrange(1, n.len() as int + 1) =~= n);
        },
        TypeModel::Array(e) => {
            lemma_type_round_trip(*e, rest);
            assert(s.drop_first() =~= encode_type(*e) + rest);
        },
        _ => {},
    }
}

impl JvmType {
    /// Decodes one type in descriptor form from `s`, starting at `pos`; returns the type and
    /// the position just after it.
    pub fn read(s: &Vec<char>, pos: usize) -> (r: Result<(JvmType, usize), DescriptorError>)
        requires
            pos <= s@.len(),
        ensures
            r is Err <==> decode_type(s@.skip(pos as int)) is None,
            r is Ok ==> decode_type(s@.skip(pos as int)) == Some(
                (r->Ok_0.0@, r->Ok_0.1 - pos),
            ),
            r is Err ==> r->Err_0 == DescriptorError::MalformedType,
        decreases s@.len() - pos,
    {
        let ghost rest = s@.skip(pos as int);
        if pos >= s.len() {
            return Err(DescriptorError::MalformedType);
        }
        let first = s[pos];
        assert(rest[0] == first);
        if first == 'L' {
            let mut end: usize = pos + 1;
            while end < s.len() && s[end] != ';'
                invariant
                    pos < end <= s@.len(),
                    forall|k: int| pos < k < end ==> s@[k] != ';',
                decreases s@.len() - end,
            {
                end = end + 1;
            }
            let ghost d = rest.drop_first();
            assert(d =~= s@.skip(pos + 1));
            if end == s.len() {
                proof {
                    lemma_find_char_bounds(d, ';');
                    if d.contains(';') {
                        let k = choose|k: int| 0 <= k < d.len() && #[trigger] d[k] == ';';
                        assert(s@[pos + 1 + k] == ';');
                    }
                }
                return Err(DescriptorError::MalformedType);
            }
            proof {
                let i = end - pos - 1;
                if d.subrange(0, i).contains(';') {
                    let k = choose|k: int| 0 <= k < i && #[trigger] d.subrange(0, i)[k] == ';';
                    assert(s@[pos + 1 + k] == ';');
                }
                lemma_find_char_first(d, ';', i);
            }
            let name = string_of(&s.as_slice()[pos + 1..end]);
            assert(name@ =~= rest.subrange(1, end - pos));
            return Ok((JvmType::Class(name), end + 1));
        }
        if first == '[' {
            proof { lemma_decode_type_len(s@.skip(pos + 1)); }
            assert(rest.drop_first() =~= s@.skip(pos + 1));
            match JvmType::read(s, pos + 1) {
                Ok((e, p)) => {
                    return Ok((JvmType::Array(Box::new(e)), p));
                },
                Err(e) => {
                    return Err(e);
                },
            }
        }
        let t = if first == 'V' {
            JvmType::Void
        } else if first == 'Z' {
            JvmType::Boolean
        } else if first == 'B' {
            JvmType::Byte
        } else if first == 'S' {
            JvmType::Short
        } else if first == 'C' {
            JvmType::Char
        } else if first == 'I' {
            JvmType::Int
        } else if first == 'J' {
            JvmType::Long
        } else if first == 'F' {
            JvmType::Float
        } else if first == 'D' {
            JvmType::Double
        } else {
            return Err(DescriptorError::MalformedType);
        };
        Ok((t, pos + 1))
    }

    /// Appends the descriptor form of this type to `out`.
    pub fn push_descriptor(&self, out: &mut String)
        ensures
            final(out)@ == old(out)@ + encode_type(self@),
        decreases self,
    {
        match self {
            JvmType::Class(n) => {
                push_char(out, 'L');
                out.append(n.as_str());
                push_char(out, ';');
                assert(final(out)@ =~= old(out)@ + encode_type(self@));
            },
            JvmType::Array(e) => {
                push_char(out, '[');
                let inner: &JvmType = e;
                inner.push_descriptor(out);
                assert(final(out)@ =~= old(out)@ + encode_type(self@));
            },
            _ => {
                let c = match self {
                    JvmType::Void => 'V',
                    JvmType::Boolean => 'Z',
                    JvmType::Byte => 'B',
                    JvmType::Short => 'S',
                    JvmType::Char => 'C',
                    JvmType::Int => 'I',
                    JvmType::Long => 'J',
                    JvmType::Float => 'F',
                    _ => 'D',
                };
                push_char(out, c);
                assert(final(out)@ =~= old(out)@ + encode_type(self@));
            },
        }
    }

    /// The descriptor form of this type.
    pub fn to_descriptor(&self) -> (r: String)
        ensures
            r@ == encode_type(self@),
    {
        let mut out = String::new();
        self.push_descriptor(&mut out);
        assert(out@ =~= encode_type(self@));
        out
    }
}

/// A method signature: ordered parameter types and a result type.
#[derive(Debug)]
pub struct JvmSignature {
    params: Vec<JvmType>,
    result: JvmType,
}

/// The mathematical model of a method signature.
pub ghost struct SigModel {
    pub params: Seq<TypeModel>,
    pub result: TypeModel,
}

/// The models of a sequence of types.
pub open spec fn types_view(v: Seq<JvmType>) -> Seq<TypeModel> {
    v.map_values(|t: JvmType| t@)
}

impl JvmSignature {
    pub closed spec fn view(&self) -> SigModel {
        SigModel { params: types_view(self.params@), result: self.result@ }
    }
}

/// The descriptor forms of a sequence of types, one after the other.
pub open spec fn encode_types(ps: Seq<TypeModel>) -> Seq<char>
    decreases ps.len(),
{
    if ps.len() == 0 {
        Seq::empty()
    } else {
        encode_type(ps[0]) + encode_types(ps.drop_first())
    }
}

/// The descriptor form of a signature (`(ILjava/lang/String;)V`).
pub open spec fn encode_signature(sig: SigModel) -> Seq<char> {
    seq!['('] + encode_types(sig.params) + seq![')'] + encode_type(sig.result)
}

/// A signature is well formed when each of its types is.
pub open spec fn sig_well_formed(sig: SigModel) -> bool {
    &&& forall|i: int| 0 <= i < sig.params.len() ==> well_formed(#[trigger] sig.params[i])
    &&& well_formed(sig.result)
}

/// Decodes parameter types from the front of `s` up to and including the closing `)`.
pub open spec fn decode_params(s: Seq<char>) -> Option<(Seq<TypeModel>, int)>
    decreases s.len(),
{
    if s.len() == 0 {
        None
    } else if s[0] == ')' {
        Some((Seq::empty(), 1))
    } else {
        match decode_type(s) {
            Some((t, n)) => if 1 <= n <= s.len() {
                match decode_params(s.skip(n)) {
                    Some((ps, m)) => Some((seq![t] + ps, n + m)),
                    None => None,
                }
            } else {
                None
            },
            None => None,
        }
    }
}

/// Decodes a whole string as a signature in descriptor form.
pub open spec fn decode_signature(s: Seq<char>) -> Option<SigModel> {
    if s.len() == 0 || s[0] != '(' {
        None
    } else {
        match decode_params(s.drop_first()) {
            Some((ps, n)) => match decode_type(s.skip(1 + n)) {
                Some((r, m)) => if 1 + n + m == s.len() {
                    Some(SigModel { params: ps, result: r })
                } else {
                    None
                },
                None => None,
            },
            None => None,
        }
    }
}

pub proof fn lemma_encode_types_push(ps: Seq<TypeModel>, t: TypeModel)
    ensures
        encode_types(ps.push(t)) == encode_types(ps) + encode_type(t),
    decreases ps.len(),
{
    if ps.len() == 0 {
        assert(ps.push(t).drop_first() =~= Seq::<TypeModel>::empty());
        assert(encode_types(Seq::<TypeModel>::empty()) == Seq::<char>::empty());
        assert(ps.push(t)[0] == t);
        assert(encode_types(ps.push(t)) =~= encode_types(ps) + encode_type(t));
    } else {
        lemma_encode_types_push(ps.drop_first(), t);
        assert(ps.push(t).drop_first() =~= ps.drop_first().push(t));
        assert(ps.push(t)[0] == ps[0]);
        assert(encode_types(ps.push(t)) == encode_type(ps[0]) + encode_types(ps.drop_first().push(t)));
        assert(encode_types(ps.push(t)) =~= encode_types(ps) + encode_type(t));
    }
}

pub proof fn lemma_params_round_trip(ps: Seq<TypeModel>, rest: Seq<char>)
    requires
        forall|i: int| 0 <= i < ps.len() ==> well_formed(#[trigger] ps[i]),
    ensures
        decode_params(encode_types(ps) + seq![')'] + rest) == Some(
            (ps, encode_types(ps).len() as int + 1),
        ),
    decreases ps.len(),
{
    let s = encode_types(ps) + seq![')'] + rest;
    if ps.len() == 0 {
        assert(s[0] == ')');
        assert(ps =~= Seq::<TypeModel>::empty());
    } else {
        let t = ps[0];
        let tail = ps.drop_first();
        assert(forall|i: int| 0 <= i < tail.len() ==> tail[i] == ps[i + 1]);
        lemma_params_round_trip(tail, rest);
        let after = encode_types(tail) + seq![')'] + rest;
        assert(s =~= encode_type(t) + after);
        lemma_type_round_trip(t, after);
        match t {
            TypeModel::Class(_) => assert(s[0] == 'L'),
            TypeModel::Array(_) => assert(s[0] == '['),
            _ => assert(s[0] == primitive_code(t).unwrap()),
        }
        assert(s.skip(encode_type(t).len() as int) =~= after);
        assert(seq![t] + tail =~= ps);
    }
}

/// Decoding the descriptor form of a well-formed signature gives that signature back.
pub proof fn lemma_signature_round_trip(sig: SigModel)
    requires
        sig_well_formed(sig),
    ensures
        decode_signature(encode_signature(sig)) == Some(sig),
{
    let s = encode_signature(sig);
    let r = encode_type(sig.result);
    lemma_params_round_trip(sig.params, r);
    assert(s.drop_first() =~= encode_types(sig.params) + seq![')'] + r);
    let n: int = encode_types(sig.params).len() as int + 1;
    assert(s.skip(1 + n) =~= r + Seq::<char>::empty());
    lemma_type_round_trip(sig.result, Seq::<char>::empty());
}

impl JvmSignature {
    /// A signature with the given parameter types and result type.
    pub fn from(params: &[JvmType], result: &JvmType) -> (r: JvmSignature)
        ensures
            r@.params == types_view(params@),
            r@.result == result@,
    {
        let mut ps: Vec<JvmType> = Vec::new();
        let mut i: usize = 0;
        while i < params.len()
            invariant
                i <= params@.len(),
                types_view(ps@) == types_view(params@.subrange(0, i as int)),
            decreases params@.len() - i,
        {
            ps.push(params[i].clone());
            assert(types_view(params@.subrange(0, i + 1)) =~= types_view(
                params@.subrange(0, i as int),
            ).push(params@[i as int]@));
            i = i + 1;
        }
        assert(params@.subrange(0, params@.len() as int) =~= params@);
        assert(types_view(ps@) =~= types_view(params@));
        JvmSignature { params: ps, result: result.clone() }
    }

    /// Decodes a whole string as a signature in descriptor form (`(ILjava/lang/String;)V`).
    pub fn from_jvm_sig(s: &str) -> (r: Result<JvmSignature, DescriptorError>)
        ensures
            r is Ok <==> decode_signature(s@) is Some,
            r is Ok ==> decode_signature(s@) == Some(r->Ok_0@),
            r is Err ==> r->Err_0 == DescriptorError::MalformedSignature,
    {
        let c = chars_of(s);
        if c.len() == 0 || c[0] != '(' {
            return Err(DescriptorError::MalformedSignature);
        }
        let mut params: Vec<JvmType> = Vec::new();
        let mut pos: usize = 1;
        assert(c@.drop_first() =~= c@.skip(1));
        assert(types_view(params@) =~= Seq::<TypeModel>::empty());
        while pos < c.len() && c[pos] != ')'
            invariant
                1 <= pos <= c@.len(),
                c@ == s@,
                c@.len() > 0 && c@[0] == '(',
                decode_params(c@.skip(1)) == match decode_params(c@.skip(pos as int)) {
                    Some((ps, m)) => Some((types_view(params@) + ps, pos - 1 + m)),
                    None => None,
                },
            decreases c@.len() - pos,
        {
            let ghost rest = c@.skip(pos as int);
            proof { lemma_decode_type_len(rest); }
            match JvmType::read(&c, pos) {
                Ok((t, p)) => {
                    let ghost n = p - pos;
                    assert(rest.skip(n) =~= c@.skip(p as int));
                    assert(types_view(params@.push(t)) =~= types_view(params@).push(t@));
                    params.push(t);
                    proof {
                        match decode_params(c@.skip(p as int)) {
                            Some((ps, m)) => {
                                assert(types_view(params@) + ps =~= types_view(params@.drop_last())
                                    + (seq![t@] + ps));
                            },
                            None => {},
                        }
                    }
                    pos = p;
                },
                Err(_) => {
                    return Err(DescriptorError::MalformedSignature);
                },
            }
        }
        if pos == c.len() {
            return Err(DescriptorError::MalformedSignature);
        }
        assert(types_view(params@) + Seq::<TypeModel>::empty() =~= types_view(params@));
        match JvmType::read(&c, pos + 1) {
            Ok((result, p)) => {
                if p != c.len() {
                    return Err(DescriptorError::MalformedSignature);
                }
                Ok(JvmSignature { params, result })
            },
            Err(_) => Err(DescriptorError::MalformedSignature),
        }
    }

    /// The parameter types, in order.
    pub fn params(&self) -> (r: &[JvmType])
        ensures
            types_view(r@) == self@.params,
    {
        self.params.as_slice()
    }

    /// The result type.
    pub fn result(&self) -> (r: &JvmType)
        ensures
            r@ == self@.result,
    {
        &self.result
    }

    /// The descriptor form of this signature.
    pub fn to_descriptor(&self) -> (r: String)
        ensures
            r@ == encode_signature(self@),
    {
        let mut out = String::new();
        push_char(&mut out, '(');
        let mut i: usize = 0;
        while i < self.params.len()
            invariant
                i <= self.params@.len(),
                out@ == seq!['('] + encode_types(types_view(self.params@.subrange(0, i as int))),
            decreases self.params@.len() - i,
        {
            proof {
                lemma_encode_types_push(types_view(self.params@.subrange(0, i as int)), self.params@[i as int]@);
                assert(types_view(self.params@.subrange(0, i + 1)) =~= types_view(
                    self.params@.subrange(0, i as int),
                ).push(self.params@[i as int]@));
            }
            self.params[i].push_descriptor(&mut out);
            assert(out@ =~= seq!['('] + encode_types(types_view(self.params@.subrange(0, i + 1))));
            i = i + 1;
        }
        assert(self.params@.subrange(0, self.params@.len() as int) =~= self.params@);
        push_char(&mut out, ')');
        self.result.push_descriptor(&mut out);
        assert(out@ =~= encode_signature(self@));
        out
    }
}

impl PartialEq for JvmSignature {
    fn eq(&self, o: &JvmSignature) -> (r: bool) {
        if self.params.len() != o.params.len() || !self.result.eq(&o.result) {
            return false;
        }
        let mut i: usize = 0;
        while i < self.params.len()
            invariant
                self.params@.len() == o.params@.len(),
                i <= self.params@.len(),
                types_view(self.params@).subrange(0, i as int) == types_view(o.params@).subrange(
                    0,
                    i as int,
                ),
            decreases self.params@.len() - i,
        {
            if !self.params[i].eq(&o.params[i]) {
                assert(types_view(self.params@)[i as int] != types_view(o.params@)[i as int]);
                return false;
            }
            assert(types_view(self.params@).subrange(0, i + 1) =~= types_view(o.params@).subrange(
                0,
                i + 1,
            ));
            i = i + 1;
        }
        assert(types_view(self.params@) =~= types_view(self.params@).subrange(0, i as int));
        assert(types_view(o.params@) =~= types_view(o.params@).subrange(0, i as int));
        true
    }
}

impl vstd::std_specs::cmp::PartialEqSpecImpl for JvmSignature {
    open spec fn obeys_eq_spec() -> bool {
        true
    }

    open spec fn eq_spec(&self, o: &JvmSignature) -> bool {
        self@ == o@
    }
}

impl Clone for JvmSignature {
    fn clone(&self) -> (r: JvmSignature)
        ensures
            r@ == self@,
    {
        JvmSignature::from(self.params.as_slice(), &self.result)
    }
}

/// `s` with each `.` replaced by `/`.
pub open spec fn dots_to_slashes(s: Seq<char>) -> Seq<char> {
    s.map_values(|c: char| if c == '.' { '/' } else { c })
}

/// Whether `s` ends with `[]`.
pub open spec fn ends_with_brackets(s: Seq<char>) -> bool {
    s.len() >= 2 && s[s.len() - 2] == '[' && s[s.len() - 1] == ']'
}

/// The primitive type named by a source keyword.
pub open spec fn primitive_of_keyword(s: Seq<char>) -> Option<TypeModel> {
    if s == seq!['v', 'o', 'i', 'd'] { Some(TypeModel::Void) }
    else if s == seq!['b', 'o', 'o', 'l', 'e', 'a', 'n'] { Some(TypeModel::Boolean) }
    else if s == seq!['b', 'y', 't', 'e'] { Some(TypeModel::Byte) }
    else if s == seq!['s', 'h', 'o', 'r', 't'] { Some(TypeModel::Short) }
    else if s == seq!['c', 'h', 'a', 'r'] { Some(TypeModel::Char) }
    else if s == seq!['i', 'n', 't'] { Some(TypeModel::Int) }
    else if s == seq!['l', 'o', 'n', 'g'] { Some(TypeModel::Long) }
    else if s == seq!['f', 'l', 'o', 'a', 't'] { Some(TypeModel::Float) }
    else if s == seq!['d', 'o', 'u', 'b', 'l', 'e'] { Some(TypeModel::Double) }
    else { None }
}

/// The type written in source syntax (`int[]`, `java.lang.String`): each trailing `[]` is one
/// array dimension, a keyword is a primitive type, anything else names a class.
pub open spec fn decode_readable(s: Seq<char>) -> TypeModel
    decreases s.len(),
{
    if ends_with_brackets(s) {
        TypeModel::Array(Box::new(decode_readable(s.subrange(0, s.len() - 2))))
    } else {
        match primitive_of_keyword(s) {
            Some(t) => t,
            None => TypeModel::Class(dots_to_slashes(s)),
        }
    }
}

/// Whether the first `end` characters of `c` are `kw`.
fn prefix_is(c: &Vec<char>, end: usize, kw: &[char]) -> (r: bool)
    requires
        end <= c@.len(),
    ensures
        r == (c@.subrange(0, end as int) == kw@),
{
    if end != kw.len() {
        return false;
    }
    let mut i: usize = 0;
    while i < end
        invariant
            end == kw@.len(),
            end <= c@.len(),
            i <= end,
            c@.subrange(0, i as int) == kw@.subrange(0, i as int),
        decreases end - i,
    {
        if c[i] != kw[i] {
            assert(c@.subrange(0, end as int)[i as int] != kw@[i as int]);
            return false;
        }
        assert(c@.subrange(0, i + 1) =~= kw@.subrange(0, i + 1));
        i = i + 1;
    }
    assert(kw@.subrange(0, end as int) =~= kw@);
    true
}

/// The type written in source syntax by the first `end` characters of `c`.
fn readable_prefix(c: &Vec<char>, end: usize) -> (r: JvmType)
    requires
        end <= c@.len(),
    ensures
        r@ == decode_readable(c@.subrange(0, end as int)),
    decreases end,
{
    let ghost s = c@.subrange(0, end as int);
    if end >= 2 && c[end - 2] == '[' && c[end - 1] == ']' {
        let e = readable_prefix(c, end - 2);
        assert(s.subrange(0, s.len() - 2) =~= c@.subrange(0, end - 2));
        return JvmType::Array(Box::new(e));
    }
    assert(!ends_with_brackets(s));
    if prefix_is(c, end, &['v', 'o', 'i', 'd']) {
        return JvmType::Void;
    }
    if prefix_is(c, end, &['b', 'o', 'o', 'l', 'e', 'a', 'n']) {
        return JvmType::Boolean;
    }
    if prefix_is(c, end, &['b', 'y', 't', 'e']) {
        return JvmType::Byte;
    }
    if prefix_is(c, end, &['s', 'h', 'o', 'r', 't']) {
        return JvmType::Short;
    }
    if prefix_is(c, end, &['c', 'h', 'a', 'r']) {
        return JvmType::Char;
    }
    if prefix_is(c, end, &['i', 'n', 't']) {
        return JvmType::Int;
    }
    if prefix_is(c, end, &['l', 'o', 'n', 'g']) {
        return JvmType::Long;
    }
    if prefix_is(c, end, &['f', 'l', 'o', 'a', 't']) {
        return JvmType::Float;
    }
    if prefix_is(c, end, &['d', 'o', 'u', 'b', 'l', 'e']) {
        return JvmType::Double;
    }
    let mut name = String::new();
    let mut i: usize = 0;
    while i < end
        invariant
            end <= c@.len(),
            i <= end,
            name@ == dots_to_slashes(c@.subrange(0, i as int)),
        decreases end - i,
    {
        let ch = if c[i] == '.' { '/' } else { c[i] };
        push_char(&mut name, ch);
        assert(dots_to_slashes(c@.subrange(0, i + 1)) =~= dots_to_slashes(
            c@.subrange(0, i as int),
        ).push(ch));
        i = i + 1;
    }
    JvmType::Class(name)
}

impl JvmType {
    /// The type written in source syntax (`int[]`, `java.lang.String`).
    pub fn from_readable(s: &str) -> (r: JvmType)
        ensures
            r@ == decode_readable(s@),
    {
        let c = chars_of(s);
        assert(c@.subrange(0, c@.len() as int) =~= s@);
        readable_prefix(&c, c.len())
    }
}

/// The parameter types of a comma-separated list in source syntax; the empty list has none.
pub open spec fn decode_readable_params(p: Seq<char>) -> Seq<TypeModel> {
    if p.len() == 0 {
        Seq::empty()
    } else {
        split_on(p, ',').map_values(|x: Seq<char>| decode_readable(trim_blank(x)))
    }
}

impl JvmSignature {
    /// The signature with a result type and a comma-separated parameter list, both in source
    /// syntax (`"void"`, `"int,java.lang.String"`).
    pub fn from_readable(result: &str, params: &str) -> (r: JvmSignature)
        ensures
            r@.result == decode_readable(result@),
            r@.params == decode_readable_params(params@),
    {
        let result = JvmType::from_readable(result);
        let c = chars_of(params);
        let mut ps: Vec<JvmType> = Vec::new();
        if c.len() == 0 {
            assert(types_view(ps@) =~= decode_readable_params(params@));
            return JvmSignature { params: ps, result };
        }
        let pieces = split_chars(&c, ',');
        let ghost want = decode_readable_params(params@);
        let mut i: usize = 0;
        while i < pieces.len()
            invariant
                c@ == params@,
                c@.len() > 0,
                pieces@.len() == split_on(c@, ',').len(),
                forall|k: int| 0 <= k < pieces@.len() ==> #[trigger] pieces@[k]@ == split_on(c@, ',')[k],
                want == decode_readable_params(params@),
                i <= pieces@.len(),
                types_view(ps@) == want.subrange(0, i as int),
            decreases pieces@.len() - i,
        {
            let piece = &pieces[i];
            let t = trim_range(piece, 0, piece.len());
            assert(piece@.subrange(0, piece@.len() as int) =~= piece@);
            let ty = readable_prefix(&t, t.len());
            assert(t@.subrange(0, t@.len() as int) =~= t@);
            assert(want[i as int] == decode_readable(trim_blank(split_on(c@, ',')[i as int])));
            assert(types_view(ps@.push(ty)) =~= types_view(ps@).push(ty@));
            ps.push(ty);
            assert(types_view(ps@) =~= want.subrange(0, i + 1));
            i = i + 1;
        }
        assert(want.subrange(0, i as int) =~= want);
        JvmSignature { params: ps, result }
    }
}

/// A field: its class, type and name.
#[derive(Debug)]
pub struct JvmField {
    pub class: String,
    pub field_type: JvmType,
    pub name: String,
}

/// A method: its class, signature and name.
#[derive(Debug)]
pub struct JvmMethod {
    pub class: String,
    pub signature: JvmSignature,
    pub name: String,
}

} // verus!
