use vstd::prelude::*;
use crate::jvmsig::{decode_signature, decode_type, decode_readable, decode_readable_params, JvmSignature, JvmType, SigModel, TypeModel, dots_to_slashes};
use crate::shapes::{line_is, regex_captures, LineShapes};
use crate::text::{chars_of, same_chars, split_chars, split_on, string_of};

verus! {

/// The obfuscated → intermediary table.
#[derive(Debug)]
pub struct Intermediary {
    pub entries: Vec<IntermediaryEntry>,
}

/// One record of the intermediary table, keyed by the obfuscated coordinate.
#[derive(Debug)]
pub enum IntermediaryEntry {
    Class { obf_name: String, int_name: String },
    Field { obf_class: String, obf_type: JvmType, obf_name: String, int_name: String },
    Method { obf_class: String, obf_sig: JvmSignature, obf_name: String, int_name: String },
}

/// The deobfuscated → obfuscated table, possibly gathered from several sources.
#[derive(Debug)]
pub struct MojangMap {
    pub entries: Vec<MojangMapEntry>,
}

/// One record of the deobfuscation table, carrying both coordinates.
#[derive(Debug)]
pub enum MojangMapEntry {
    Class { deobf_name: String, obf_name: String },
    Field {
        deobf_class: String,
        obf_class: String,
        deobf_type: JvmType,
        deobf_name: String,
        obf_name: String,
    },
    Method {
        deobf_class: String,
        obf_class: String,
        deobf_sig: JvmSignature,
        deobf_name: String,
        obf_name: String,
    },
}

/// How many class records a sequence of deobfuscation records holds.
pub open spec fn class_count(es: Seq<MojangMapEntry>) -> nat
    decreases es.len(),
{
    if es.len() == 0 {
        0
    } else {
        class_count(es.drop_last()) + if es.last() is Class { 1nat } else { 0nat }
    }
}

impl MojangMap {
    /// A table with no records.
    pub fn empty() -> (r: MojangMap)
        ensures
            r.entries@.len() == 0,
    {
        MojangMap { entries: Vec::new() }
    }

    /// Appends the records of `other` after those of this table.
    pub fn combine(&mut self, other: MojangMap)
        ensures
            final(self).entries@ == old(self).entries@ + other.entries@,
    {
        let mut other = other;
        self.entries.append(&mut other.entries);
    }
}

/// Concatenating two tables adds up their class records, and keeps them in order: first
/// those of `a`, then those of `b`.
pub proof fn lemma_class_count_concat(a: Seq<MojangMapEntry>, b: Seq<MojangMapEntry>)
    ensures
        class_count(a + b) == class_count(a) + class_count(b),
        (a + b).subrange(0, a.len() as int) == a,
        (a + b).skip(a.len() as int) == b,
    decreases b.len(),
{
    if b.len() == 0 {
        assert(a + b =~= a);
    } else {
        lemma_class_count_concat(a, b.drop_last());
        assert((a + b).drop_last() =~= a + b.drop_last());
        assert((a + b).last() == b.last());
    }
    assert((a + b).subrange(0, a.len() as int) =~= a);
    assert((a + b).skip(a.len() as int) =~= b);
}

/// A fatal error found while loading a table, with the index of the offending line.
#[derive(Debug, Clone, Copy, PartialEq, Eq)]
pub enum LoadError {
    SyntaxError { line: usize },
    MalformedType { line: usize },
    MalformedSignature { line: usize },
    MemberBeforeClass { line: usize },
}

/// One line of a deobfuscation mapping, by shape, with its parts as written.
#[derive(Debug)]
pub enum MojangLine {
    Comment,
    Class { deobf_name: String, obf_name: String },
    Field { deobf_type: String, deobf_name: String, obf_name: String },
    Method { deobf_result: String, deobf_name: String, deobf_params: String, obf_name: String },
    Unmatched,
}

/// The model of a deobfuscation record.
pub ghost enum MojangModel {
    Class { deobf_name: Seq<char>, obf_name: Seq<char> },
    Field {
        deobf_class: Seq<char>,
        obf_class: Seq<char>,
        deobf_type: TypeModel,
        deobf_name: Seq<char>,
        obf_name: Seq<char>,
    },
    Method {
        deobf_class: Seq<char>,
        obf_class: Seq<char>,
        deobf_sig: SigModel,
        deobf_name: Seq<char>,
        obf_name: Seq<char>,
    },
}

impl MojangMapEntry {
    pub open spec fn view(&self) -> MojangModel {
        match self {
            MojangMapEntry::Class { deobf_name, obf_name } => MojangModel::Class {
                deobf_name: deobf_name@,
                obf_name: obf_name@,
            },
            MojangMapEntry::Field { deobf_class, obf_class, deobf_type, deobf_name, obf_name } =>
                MojangModel::Field {
                deobf_class: deobf_class@,
                obf_class: obf_class@,
                deobf_type: deobf_type@,
                deobf_name: deobf_name@,
                obf_name: obf_name@,
            },
            MojangMapEntry::Method { deobf_class, obf_class, deobf_sig, deobf_name, obf_name } =>
                MojangModel::Method {
                deobf_class: deobf_class@,
                obf_class: obf_class@,
                deobf_sig: deobf_sig@,
                deobf_name: deobf_name@,
                obf_name: obf_name@,
            },
        }
    }
}

/// The models of a sequence of deobfuscation records.
pub open spec fn mojang_view(v: Seq<MojangMapEntry>) -> Seq<MojangModel> {
    v.map_values(|e: MojangMapEntry| e@)
}

/// The state after reading some lines: the current class (deobfuscated and obfuscated
/// names) and the records so far, or the first error.
pub ghost struct ScanState {
    pub current: Option<(Seq<char>, Seq<char>)>,
    pub result: Result<Seq<MojangModel>, LoadError>,
}

/// Reads the lines of one deobfuscation mapping in order. A class line sets the current class
/// (names with `.` rewritten to `/`); a field or method line belongs to the current class, and
/// is an error before any class line; any other line is a syntax error. Reading stops at the
/// first error.
pub open spec fn scan_lines(lines: Seq<MojangLine>) -> ScanState
    decreases lines.len(),
{
    if lines.len() == 0 {
        ScanState { current: None, result: Ok(Seq::empty()) }
    } else {
        let st = scan_lines(lines.drop_last());
        let n = (lines.len() - 1) as usize;
        match st.result {
            Err(e) => st,
            Ok(es) => match lines.last() {
                MojangLine::Comment => st,
                MojangLine::Unmatched => ScanState {
                    current: st.current,
                    result: Err(LoadError::SyntaxError { line: n }),
                },
                MojangLine::Class { deobf_name, obf_name } => {
                    let d = dots_to_slashes(deobf_name@);
                    let o = dots_to_slashes(obf_name@);
                    ScanState {
                        current: Some((d, o)),
                        result: Ok(es.push(MojangModel::Class { deobf_name: d, obf_name: o })),
                    }
                },
                MojangLine::Field { deobf_type, deobf_name, obf_name } => match st.current {
                    None => ScanState {
                        current: None,
                        result: Err(LoadError::MemberBeforeClass { line: n }),
                    },
                    Some((d, o)) => ScanState {
                        current: st.current,
                        result: Ok(
                            es.push(
                                MojangModel::Field {
                                    deobf_class: d,
                                    obf_class: o,
                                    deobf_type: decode_readable(deobf_type@),
                                    deobf_name: deobf_name@,
                                    obf_name: obf_name@,
                                },
                            ),
                        ),
                    },
                },
                MojangLine::Method { deobf_result, deobf_name, deobf_params, obf_name } => match st.current {
                    None => ScanState {
                        current: None,
                        result: Err(LoadError::MemberBeforeClass { line: n }),
                    },
                    Some((d, o)) => ScanState {
                        current: st.current,
                        result: Ok(
                            es.push(
                                MojangModel::Method {
                                    deobf_class: d,
                                    obf_class: o,
                                    deobf_sig: SigModel {
                                        params: decode_readable_params(deobf_params@),
                                        result: decode_readable(deobf_result@),
                                    },
                                    deobf_name: deobf_name@,
                                    obf_name: obf_name@,
                                },
                            ),
                        ),
                    },
                },
            },
        }
    }
}

/// Reading stops at the first error: later lines do not change it.
pub proof fn lemma_scan_error_stays(lines: Seq<MojangLine>, k: int)
    requires
        0 <= k <= lines.len(),
        scan_lines(lines.subrange(0, k)).result is Err,
    ensures
        scan_lines(lines).result == scan_lines(lines.subrange(0, k)).result,
    decreases lines.len() - k,
{
    if k == lines.len() {
        assert(lines.subrange(0, k) =~= lines);
    } else {
        assert(lines.drop_last().subrange(0, k) =~= lines.subrange(0, k));
        lemma_scan_error_stays(lines.drop_last(), k);
    }
}

/// A copy of `s` with each `.` replaced by `/`.
pub fn slashed(s: &String) -> (r: String)
    ensures
        r@ == dots_to_slashes(s@),
{
    let c = chars_of(s.as_str());
    let mut out: Vec<char> = Vec::new();
    let mut i: usize = 0;
    while i < c.len()
        invariant
            i <= c@.len(),
            out@ == dots_to_slashes(c@.subrange(0, i as int)),
        decreases c@.len() - i,
    {
        let ch = if c[i] == '.' { '/' } else { c[i] };
        out.push(ch);
        assert(out@ =~= dots_to_slashes(c@.subrange(0, i + 1)));
        i = i + 1;
    }
    assert(c@.subrange(0, c@.len() as int) =~= c@);
    string_of(out.as_slice())
}

impl MojangMap {
    /// Builds the table of one deobfuscation mapping from its lines, in order.
    pub fn from_lines(lines: &Vec<MojangLine>) -> (r: Result<MojangMap, LoadError>)
        ensures
            match scan_lines(lines@).result {
                Ok(es) => r is Ok && mojang_view(r->Ok_0.entries@) == es,
                Err(e) => r == Err::<MojangMap, LoadError>(e),
            },
    {
        let mut entries: Vec<MojangMapEntry> = Vec::new();
        let mut current: Option<(String, String)> = None;
        let mut i: usize = 0;
        assert(lines@.subrange(0, 0) =~= Seq::<MojangLine>::empty());
        assert(mojang_view(entries@) =~= Seq::<MojangModel>::empty());
        while i < lines.len()
            invariant
                i <= lines@.len(),
                scan_lines(lines@.subrange(0, i as int)).result == Ok::<Seq<MojangModel>, LoadError>(
                    mojang_view(entries@),
                ),
                scan_lines(lines@.subrange(0, i as int)).current == match current {
                    Some((d, o)) => Some((d@, o@)),
                    None => None::<(Seq<char>, Seq<char>)>,
                },
            decreases lines@.len() - i,
        {
            let ghost pre = lines@.subrange(0, i as int);
            let ghost next = lines@.subrange(0, i + 1);
            assert(next.drop_last() =~= pre);
            assert(next.last() == lines@[i as int]);
            match &lines[i] {
                MojangLine::Comment => {},
                MojangLine::Unmatched => {
                    proof { lemma_scan_error_stays(lines@, i + 1); }
                    return Err(LoadError::SyntaxError { line: i });
                },
                MojangLine::Class { deobf_name, obf_name } => {
                    let d = slashed(deobf_name);
                    let o = slashed(obf_name);
                    let e = MojangMapEntry::Class { deobf_name: d.clone(), obf_name: o.clone() };
                    assert(mojang_view(entries@.push(e)) =~= mojang_view(entries@).push(e@));
                    entries.push(e);
                    current = Some((d, o));
                },
                MojangLine::Field { deobf_type, deobf_name, obf_name } => {
                    match &current {
                        None => {
                            proof { lemma_scan_error_stays(lines@, i + 1); }
                            return Err(LoadError::MemberBeforeClass { line: i });
                        },
                        Some((d, o)) => {
                            let e = MojangMapEntry::Field {
                                deobf_class: d.clone(),
                                obf_class: o.clone(),
                                deobf_type: JvmType::from_readable(deobf_type.as_str()),
                                deobf_name: deobf_name.clone(),
                                obf_name: obf_name.clone(),
                            };
                            assert(mojang_view(entries@.push(e)) =~= mojang_view(entries@).push(e@));
                            entries.push(e);
                        },
                    }
                },
                MojangLine::Method { deobf_result, deobf_name, deobf_params, obf_name } => {
                    match &current {
                        None => {
                            proof { lemma_scan_error_stays(lines@, i + 1); }
                            return Err(LoadError::MemberBeforeClass { line: i });
                        },
                        Some((d, o)) => {
                            let sig = JvmSignature::from_readable(
                                deobf_result.as_str(),
                                deobf_params.as_str(),
                            );
                            let e = MojangMapEntry::Method {
                                deobf_class: d.clone(),
                                obf_class: o.clone(),
                                deobf_sig: sig,
                                deobf_name: deobf_name.clone(),
                                obf_name: obf_name.clone(),
                            };
                            assert(mojang_view(entries@.push(e)) =~= mojang_view(entries@).push(e@));
                            entries.push(e);
                        },
                    }
                },
            }
            i = i + 1;
        }
        assert(lines@.subrange(0, lines@.len() as int) =~= lines@);
        Ok(MojangMap { entries })
    }
}

/// The model of an intermediary record.
pub ghost enum IntModel {
    Class { obf_name: Seq<char>, int_name: Seq<char> },
    Field { obf_class: Seq<char>, obf_type: TypeModel, obf_name: Seq<char>, int_name: Seq<char> },
    Method { obf_class: Seq<char>, obf_sig: SigModel, obf_name: Seq<char>, int_name: Seq<char> },
}

impl IntermediaryEntry {
    pub open spec fn view(&self) -> IntModel {
        match self {
            IntermediaryEntry::Class { obf_name, int_name } => IntModel::Class {
                obf_name: obf_name@,
                int_name: int_name@,
            },
            IntermediaryEntry::Field { obf_class, obf_type, obf_name, int_name } => IntModel::Field {
                obf_class: obf_class@,
                obf_type: obf_type@,
                obf_name: obf_name@,
                int_name: int_name@,
            },
            IntermediaryEntry::Method { obf_class, obf_sig, obf_name, int_name } => IntModel::Method {
                obf_class: obf_class@,
                obf_sig: obf_sig@,
                obf_name: obf_name@,
                int_name: int_name@,
            },
        }
    }
}

/// The models of a sequence of intermediary records.
pub open spec fn int_view(v: Seq<IntermediaryEntry>) -> Seq<IntModel> {
    v.map_values(|e: IntermediaryEntry| e@)
}

/// The lines of a text: the pieces between line feeds, without the empty piece after a final
/// line feed.
pub open spec fn text_lines(t: Seq<char>) -> Seq<Seq<char>> {
    let p = split_on(t, '\n');
    if p.last().len() == 0 {
        p.drop_last()
    } else {
        p
    }
}

/// What one line of the intermediary table gives: nothing for a comment or the version
/// line, a record, or an error naming line `n`.
pub open spec fn intermediary_line(line: Seq<char>, n: usize) -> Result<Option<IntModel>, LoadError> {
    let f = split_on(line, '\t');
    if line.len() > 0 && line[0] == '#' {
        Ok(None)
    } else if f[0] == seq!['v', '1'] {
        Ok(None)
    } else if f[0] == seq!['C', 'L', 'A', 'S', 'S'] && f.len() >= 3 {
        Ok(Some(IntModel::Class { obf_name: f[1], int_name: f[2] }))
    } else if f[0] == seq!['F', 'I', 'E', 'L', 'D'] && f.len() >= 5 {
        match decode_type(f[2]) {
            Some((t, _)) => Ok(
                Some(IntModel::Field { obf_class: f[1], obf_type: t, obf_name: f[3], int_name: f[4] }),
            ),
            None => Err(LoadError::MalformedType { line: n }),
        }
    } else if f[0] == seq!['M', 'E', 'T', 'H', 'O', 'D'] && f.len() >= 5 {
        match decode_signature(f[2]) {
            Some(s) => Ok(
                Some(IntModel::Method { obf_class: f[1], obf_sig: s, obf_name: f[3], int_name: f[4] }),
            ),
            None => Err(LoadError::MalformedSignature { line: n }),
        }
    } else {
        Err(LoadError::SyntaxError { line: n })
    }
}

/// The records of the intermediary table given by `lines`, or the error of its first bad line.
pub open spec fn intermediary_records(lines: Seq<Seq<char>>) -> Result<Seq<IntModel>, LoadError>
    decreases lines.len(),
{
    if lines.len() == 0 {
        Ok(Seq::empty())
    } else {
        match intermediary_records(lines.drop_last()) {
            Err(e) => Err(e),
            Ok(es) => match intermediary_line(lines.last(), (lines.len() - 1) as usize) {
                Err(e) => Err(e),
                Ok(None) => Ok(es),
                Ok(Some(r)) => Ok(es.push(r)),
            },
        }
    }
}

/// An error in the first `k` lines is the error of the whole table.
pub proof fn lemma_records_error_stays(lines: Seq<Seq<char>>, k: int)
    requires
        0 <= k <= lines.len(),
        intermediary_records(lines.subrange(0, k)) is Err,
    ensures
        intermediary_records(lines) == intermediary_records(lines.subrange(0, k)),
    decreases lines.len() - k,
{
    if k == lines.len() {
        assert(lines.subrange(0, k) =~= lines);
    } else {
        assert(lines.drop_last().subrange(0, k) =~= lines.subrange(0, k));
        lemma_records_error_stays(lines.drop_last(), k);
    }
}

/// Parses one line of the intermediary table.
fn parse_intermediary_line(line: &Vec<char>, n: usize) -> (r: Result<Option<IntermediaryEntry>, LoadError>)
    ensures
        match intermediary_line(line@, n) {
            Ok(None) => r == Ok::<Option<IntermediaryEntry>, LoadError>(None),
            Ok(Some(m)) => r is Ok && r->Ok_0 is Some && r->Ok_0->Some_0@ == m,
            Err(e) => r == Err::<Option<IntermediaryEntry>, LoadError>(e),
        },
{
    if line.len() > 0 && line[0] == '#' {
        return Ok(None);
    }
    let f = split_chars(line, '\t');
    proof { crate::text::lemma_split_on_nonempty(line@, '\t'); }
    assert(f@[0]@ == split_on(line@, '\t')[0]);
    if same_chars(&f[0], &['v', '1']) {
        return Ok(None);
    }
    if same_chars(&f[0], &['C', 'L', 'A', 'S', 'S']) && f.len() >= 3 {
        assert(f@[1]@ == split_on(line@, '\t')[1]);
        assert(f@[2]@ == split_on(line@, '\t')[2]);
        return Ok(
            Some(IntermediaryEntry::Class { obf_name: string_of(f[1].as_slice()), int_name: string_of(f[2].as_slice()) }),
        );
    }
    if same_chars(&f[0], &['F', 'I', 'E', 'L', 'D']) && f.len() >= 5 {
        assert(forall|k: int| 1 <= k < 5 ==> f@[k]@ == #[trigger] split_on(line@, '\t')[k]);
        assert(f[2]@.skip(0) =~= f[2]@);
        return match JvmType::read(&f[2], 0) {
            Ok((t, _)) => Ok(
                Some(
                    IntermediaryEntry::Field {
                        obf_class: string_of(f[1].as_slice()),
                        obf_type: t,
                        obf_name: string_of(f[3].as_slice()),
                        int_name: string_of(f[4].as_slice()),
                    },
                ),
            ),
            Err(_) => Err(LoadError::MalformedType { line: n }),
        };
    }
    if same_chars(&f[0], &['M', 'E', 'T', 'H', 'O', 'D']) && f.len() >= 5 {
        assert(forall|k: int| 1 <= k < 5 ==> f@[k]@ == #[trigger] split_on(line@, '\t')[k]);
        let sig_text = string_of(f[2].as_slice());
        return match JvmSignature::from_jvm_sig(sig_text.as_str()) {
            Ok(s) => Ok(
                Some(
                    IntermediaryEntry::Method {
                        obf_class: string_of(f[1].as_slice()),
                        obf_sig: s,
                        obf_name: string_of(f[3].as_slice()),
                        int_name: string_of(f[4].as_slice()),
                    },
                ),
            ),
            Err(_) => Err(LoadError::MalformedSignature { line: n }),
        };
    }
    Err(LoadError::SyntaxError { line: n })
}

impl Intermediary {
    /// Parses the intermediary table from its text.
    pub fn load(text: &str) -> (r: Result<Intermediary, LoadError>)
        ensures
            match intermediary_records(text_lines(text@)) {
                Ok(es) => r is Ok && int_view(r->Ok_0.entries@) == es,
                Err(e) => r == Err::<Intermediary, LoadError>(e),
            },
    {
        let pieces = lines_of(text);
        let count = pieces.len();
        let ghost lines = text_lines(text@);
        let mut entries: Vec<IntermediaryEntry> = Vec::new();
        let mut i: usize = 0;
        assert(lines.subrange(0, 0) =~= Seq::<Seq<char>>::empty());
        assert(int_view(entries@) =~= Seq::<IntModel>::empty());
        while i < count
            invariant
                count <= pieces@.len(),
                lines.len() == count,
                lines == text_lines(text@),
                forall|k: int| 0 <= k < count ==> #[trigger] lines[k] == pieces@[k]@,
                i <= count,
                intermediary_records(lines.subrange(0, i as int)) == Ok::<Seq<IntModel>, LoadError>(
                    int_view(entries@),
                ),
            decreases count - i,
        {
            assert(lines.subrange(0, i + 1).drop_last() =~= lines.subrange(0, i as int));
            assert(lines.subrange(0, i + 1).last() == pieces@[i as int]@);
            match parse_intermediary_line(&pieces[i], i) {
                Ok(None) => {},
                Ok(Some(e)) => {
                    assert(int_view(entries@.push(e)) =~= int_view(entries@).push(e@));
                    entries.push(e);
                },
                Err(e) => {
                    proof { lemma_records_error_stays(lines, i + 1); }
                    return Err(e);
                },
            }
            i = i + 1;
        }
        assert(lines.subrange(0, count as int) =~= lines);
        Ok(Intermediary { entries })
    }
}

/// A field or method line right after a class line belongs to that class.
pub proof fn lemma_member_follows_class(lines: Seq<MojangLine>, k: int)
    requires
        0 <= k,
        k + 1 < lines.len(),
        lines[k] is Class,
        !(lines[k + 1] is Class || lines[k + 1] is Comment || lines[k + 1] is Unmatched),
        scan_lines(lines.subrange(0, k)).result is Ok,
    ensures
        scan_lines(lines.subrange(0, k + 2)).result is Ok,
        ({
            let es = scan_lines(lines.subrange(0, k + 2)).result->Ok_0;
            let d = dots_to_slashes(lines[k]->Class_deobf_name@);
            let o = dots_to_slashes(lines[k]->Class_obf_name@);
            &&& es.len() >= 2
            &&& es[es.len() - 2] == MojangModel::Class { deobf_name: d, obf_name: o }
            &&& match es.last() {
                MojangModel::Field { deobf_class, obf_class, .. } => deobf_class == d && obf_class == o,
                MojangModel::Method { deobf_class, obf_class, .. } => deobf_class == d && obf_class == o,
                _ => false,
            }
        }),
{
    let a = lines.subrange(0, k + 2);
    let b = lines.subrange(0, k + 1);
    assert(a.drop_last() =~= b);
    assert(b.drop_last() =~= lines.subrange(0, k));
    assert(a.last() == lines[k + 1]);
    assert(b.last() == lines[k]);
    let d = dots_to_slashes(lines[k]->Class_deobf_name@);
    let o = dots_to_slashes(lines[k]->Class_obf_name@);
    assert(scan_lines(b).current == Some((d, o)));
    assert(scan_lines(b).result is Ok);
}

/// A field or method line with no class line before it in its source is an error.
pub proof fn lemma_member_without_class(lines: Seq<MojangLine>, k: int)
    requires
        0 <= k < lines.len(),
        lines[k] is Field || lines[k] is Method,
        forall|j: int| 0 <= j < k ==> (#[trigger] lines[j]) is Comment,
    ensures
        scan_lines(lines).result == Err::<Seq<MojangModel>, LoadError>(
            LoadError::MemberBeforeClass { line: k as usize },
        ),
{
    lemma_comments_leave_nothing(lines, k);
    let a = lines.subrange(0, k + 1);
    assert(a.drop_last() =~= lines.subrange(0, k));
    lemma_scan_error_stays(lines, k + 1);
}

proof fn lemma_comments_leave_nothing(lines: Seq<MojangLine>, k: int)
    requires
        0 <= k <= lines.len(),
        forall|j: int| 0 <= j < k ==> (#[trigger] lines[j]) is Comment,
    ensures
        scan_lines(lines.subrange(0, k)).current is None,
        scan_lines(lines.subrange(0, k)).result == Ok::<Seq<MojangModel>, LoadError>(Seq::empty()),
    decreases k,
{
    if k > 0 {
        lemma_comments_leave_nothing(lines, k - 1);
        assert(lines.subrange(0, k).drop_last() =~= lines.subrange(0, k - 1));
    }
}

/// The lines of a text, each as its characters.
pub fn lines_of(text: &str) -> (r: Vec<Vec<char>>)
    ensures
        r@.len() == text_lines(text@).len(),
        forall|k: int| 0 <= k < r@.len() ==> #[trigger] r@[k]@ == text_lines(text@)[k],
{
    let c = chars_of(text);
    let mut pieces = split_chars(&c, '\n');
    proof { crate::text::lemma_split_on_nonempty(c@, '\n'); }
    let n = pieces.len();
    if pieces[n - 1].len() == 0 {
        pieces.pop();
    }
    pieces
}

/// Whether `ls` are the shapes of `lines`, as `shapes` classifies them.
pub open spec fn lines_shaped(ls: Seq<MojangLine>, shapes: LineShapes, lines: Seq<Seq<char>>) -> bool {
    &&& ls.len() == lines.len()
    &&& forall|k: int| 0 <= k < ls.len() ==> line_is(
        #[trigger] ls[k],
        lines[k].len() > 0 && lines[k][0] == '#',
        regex_captures(shapes.class_pattern(), lines[k]),
        regex_captures(shapes.field_pattern(), lines[k]),
        regex_captures(shapes.method_pattern(), lines[k]),
    )
}

impl MojangMap {
    /// Loads one deobfuscation mapping from its text: each line is classified by `shapes`,
    /// then the lines are read in order as `from_lines` reads them.
    pub fn load(text: &str, shapes: &LineShapes) -> (r: Result<MojangMap, LoadError>)
        ensures
            exists|ls: Seq<MojangLine>| {
                &&& lines_shaped(ls, *shapes, text_lines(text@))
                &&& match scan_lines(ls).result {
                    Ok(es) => r is Ok && mojang_view(r->Ok_0.entries@) == es,
                    Err(e) => r == Err::<MojangMap, LoadError>(e),
                }
            },
    {
        let raw = lines_of(text);
        let mut lines: Vec<MojangLine> = Vec::new();
        let mut i: usize = 0;
        while i < raw.len()
            invariant
                i <= raw@.len(),
                raw@.len() == text_lines(text@).len(),
                forall|k: int| 0 <= k < raw@.len() ==> #[trigger] raw@[k]@ == text_lines(text@)[k],
                lines_shaped(lines@, *shapes, text_lines(text@).subrange(0, i as int)),
            decreases raw@.len() - i,
        {
            let line = string_of(raw[i].as_slice());
            let shape = shapes.classify(line.as_str());
            lines.push(shape);
            assert(lines_shaped(lines@, *shapes, text_lines(text@).subrange(0, i + 1)));
            i = i + 1;
        }
        assert(text_lines(text@).subrange(0, i as int) =~= text_lines(text@));
        let r = MojangMap::from_lines(&lines);
        assert(lines_shaped(lines@, *shapes, text_lines(text@)));
        r
    }
}

} // verus!
