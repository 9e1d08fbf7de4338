use vstd::prelude::*;
use vstd::string::StrSliceExecFns;
use crate::tables::MojangLine;

verus! {

#[verifier::external_type_specification]
#[verifier::external_body]
pub struct ExRegex(regex::Regex);

/// What the regular expression `pattern` captures of `text` at its leftmost match: `None`
/// where it does not match, else the text of each capture group, group 0 (the whole match)
/// first, with an empty text for a group that took no part in the match.
pub uninterp spec fn regex_captures(pattern: Seq<char>, text: Seq<char>) -> Option<Seq<Seq<char>>>;

/// The model of an optional list of captured texts.
pub open spec fn captures_view(c: Option<Vec<String>>) -> Option<Seq<Seq<char>>> {
    match c {
        Some(v) => Some(v@.map_values(|s: String| s@)),
        None => None,
    }
}

/// Relies on `regex::Regex::new`: compiles a pattern, or fails on an invalid one.
#[verifier::external_body]
fn compile(pattern: &str) -> (r: Option<regex::Regex>) {
    regex::Regex::new(pattern).ok()
}

/// A compiled pattern, with the text it was compiled from.
pub struct LinePattern {
    pattern: String,
    re: regex::Regex,
}

impl LinePattern {
    pub closed spec fn pattern(&self) -> Seq<char> {
        self.pattern@
    }

    /// Compiles `pattern`; `None` where it is not a valid pattern.
    pub fn new(pattern: &str) -> (r: Option<LinePattern>)
        ensures
            r is Some ==> r->Some_0.pattern() == pattern@,
    {
        match compile(pattern) {
            Some(re) => Some(LinePattern { pattern: pattern.to_owned(), re }),
            None => None,
        }
    }
}

/// Relies on `regex::Regex::captures` (with `Captures::iter` and `Match::as_str`): the capture
/// groups of the leftmost match. `p.re` is always compiled from `p.pattern` by
/// `LinePattern::new`.
#[verifier::external_body]
fn captures(p: &LinePattern, text: &str) -> (r: Option<Vec<String>>)
    ensures
        captures_view(r) == regex_captures(p.pattern(), text@),
{
    p.re.captures(text).map(
        |c| c.iter().map(|m| m.map_or(String::new(), |m| m.as_str().to_string())).collect(),
    )
}

/// The shape of a deobfuscation mapping line, given whether it starts with `#` and what the
/// class, field and method patterns capture of it. A method's group 1 is the optional range of
/// source lines, which is not kept.
pub open spec fn line_is(
    r: MojangLine,
    comment: bool,
    class: Option<Seq<Seq<char>>>,
    field: Option<Seq<Seq<char>>>,
    method: Option<Seq<Seq<char>>>,
) -> bool {
    if comment {
        r is Comment
    } else if class is Some && class->Some_0.len() >= 3 {
        let c = class->Some_0;
        r matches MojangLine::Class { deobf_name, obf_name } && deobf_name@ == c[1] && obf_name@
            == c[2]
    } else if field is Some && field->Some_0.len() >= 4 {
        let c = field->Some_0;
        r matches MojangLine::Field { deobf_type, deobf_name, obf_name } && deobf_type@ == c[1]
            && deobf_name@ == c[2] && obf_name@ == c[3]
    } else if method is Some && method->Some_0.len() >= 6 {
        let c = method->Some_0;
        r matches MojangLine::Method { deobf_result, deobf_name, deobf_params, obf_name }
            && deobf_result@ == c[2] && deobf_name@ == c[3] && deobf_params@ == c[4] && obf_name@
            == c[5]
    } else {
        r is Unmatched
    }
}

impl MojangLine {
    /// The shape of a line from what each pattern captured of it.
    pub fn from_captures(
        comment: bool,
        class: Option<Vec<String>>,
        field: Option<Vec<String>>,
        method: Option<Vec<String>>,
    ) -> (r: MojangLine)
        ensures
            line_is(r, comment, captures_view(class), captures_view(field), captures_view(method)),
    {
        if comment {
            return MojangLine::Comment;
        }
        if let Some(c) = &class {
            if c.len() >= 3 {
                return MojangLine::Class { deobf_name: c[1].clone(), obf_name: c[2].clone() };
            }
        }
        if let Some(c) = &field {
            if c.len() >= 4 {
                return MojangLine::Field {
                    deobf_type: c[1].clone(),
                    deobf_name: c[2].clone(),
                    obf_name: c[3].clone(),
                };
            }
        }
        if let Some(c) = &method {
            if c.len() >= 6 {
                return MojangLine::Method {
                    deobf_result: c[2].clone(),
                    deobf_name: c[3].clone(),
                    deobf_params: c[4].clone(),
                    obf_name: c[5].clone(),
                };
            }
        }
        MojangLine::Unmatched
    }
}

/// The patterns of the three line shapes of a deobfuscation mapping.
pub struct LineShapes {
    class_re: LinePattern,
    field_re: LinePattern,
    method_re: LinePattern,
}

impl LineShapes {
    pub closed spec fn class_pattern(&self) -> Seq<char> {
        self.class_re.pattern()
    }

    pub closed spec fn field_pattern(&self) -> Seq<char> {
        self.field_re.pattern()
    }

    pub closed spec fn method_pattern(&self) -> Seq<char> {
        self.method_re.pattern()
    }

    /// Compiles the three patterns; `None` where one does not compile.
    pub fn new() -> (r: Option<LineShapes>)
        ensures
            r is Some ==> r->Some_0.class_pattern() == CLASS_PATTERN@
                && r->Some_0.field_pattern() == FIELD_PATTERN@
                && r->Some_0.method_pattern() == METHOD_PATTERN@,
    {
        let class_re = LinePattern::new(CLASS_PATTERN)?;
        let field_re = LinePattern::new(FIELD_PATTERN)?;
        let method_re = LinePattern::new(METHOD_PATTERN)?;
        Some(LineShapes { class_re, field_re, method_re })
    }

    /// The shape of one line.
    pub fn classify(&self, line: &str) -> (r: MojangLine)
        ensures
            line_is(
                r,
                line@.len() > 0 && line@[0] == '#',
                regex_captures(self.class_pattern(), line@),
                regex_captures(self.field_pattern(), line@),
                regex_captures(self.method_pattern(), line@),
            ),
    {
        let comment = line.unicode_len() > 0 && line.get_char(0) == '#';
        let class = captures(&self.class_re, line);
        let field = captures(&self.field_re, line);
        let method = captures(&self.method_re, line);
        MojangLine::from_captures(comment, class, field, method)
    }
}

/// A class header: `<dotted-name> -> <dotted-obf-name>:`.
pub const CLASS_PATTERN: &'static str = r"^([\w$.]+|[\w$.]+\.package-info) -> ([\w$.]+):$";

/// A field line: indented `<readable-type> <name> -> <obf-name>`.
pub const FIELD_PATTERN: &'static str = r"^\s+([\w$.\[\]]+) ([\w$]+) -> ([\w$]+)$";

/// A method line: indented, with an optional `<digits>:<digits>:` range,
/// `<readable-type> <name>(<params>) -> <obf-name>`.
pub const METHOD_PATTERN: &'static str = r"^\s+([0-9]+:[0-9]+:)?([\w$.\[\]]+) ([\w$]+|<clinit>|<init>)\(([\w$.\[\],]*)\) -> ([\w$]+|<clinit>|<init>)$";

} // verus!
