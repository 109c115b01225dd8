//! Regular expressions, and those that tell the declarations of a language from its other lines.

use regex::Regex;
use vstd::prelude::*;

use crate::text::{chars_of, same_text, string_of, trim, trimmed};

verus! {

/// A compiled regular expression of the `regex` crate.
#[verifier::external_type_specification]
#[verifier::external_body]
pub struct ExRegex(Regex);

/// The texts in which a compiled regular expression has a match.
pub uninterp spec fn matched_by(re: Regex) -> Set<Seq<char>>;

/// The texts in which a pattern has a match, once compiled with the default settings.
pub uninterp spec fn matched_by_pattern(pattern: Seq<char>) -> Set<Seq<char>>;

/// The text of the error that compiling a pattern with the default settings ends in, if it does,
/// where a machine word has `word_bits` bits. How much room a compiled pattern takes, and so whether
/// it is too big, goes by that.
pub uninterp spec fn pattern_error(pattern: Seq<char>, word_bits: u32) -> Option<Seq<char>>;

/// Lines of Rust that declare a function, a type, a trait or an implementation, whatever stands
/// before the keyword: the visibility, and words such as `async` and `unsafe`.
pub const RUST_PATTERN: &'static str =
    r#"^\s*(pub(\([^)]*\))?\s+)?((default|const|async|unsafe|[a-z]+\s+"[^"]*")\s+)*((fn|struct|enum|trait)\s+[a-zA-Z0-9_<>]+|impl(\s*<|\s+[a-zA-Z0-9_<>&(\[!*]))"#;

/// Lines of Python that declare a function or a class.
pub const PYTHON_PATTERN: &'static str = r"^\s*(async\s+)?(def|class)\s+([a-zA-Z0-9_]+)";

/// Lines of C# that declare a class, a struct, an interface, an enum or a record, or a method.
///
/// A method is told from a call by what stands before its name. Behind modifiers that only a
/// declaration can have, that is anything up to the parameters. Else it is a return type: one of
/// the built-in types, or a name that starts with a capital letter or an underscore, as no keyword
/// of a statement does. For return types of any other name see `CSHARP_CALL_SHAPE`.
pub const CSHARP_PATTERN: &'static str =
    r"^\s*((public|private|protected|internal|static|abstract|sealed|virtual|override|async|partial|readonly|unsafe|new|ref)\s+)*((class|struct|interface|enum|record)\s+[a-zA-Z0-9_<>]+|((void|bool|byte|sbyte|char|decimal|double|float|int|uint|long|ulong|short|ushort|object|string|dynamic)|[A-Z_][a-zA-Z0-9_.]*(<[^()]*>)?)(\[,*\])*\??\s+[a-zA-Z_][a-zA-Z0-9_.]*(<[^()]*>)?\s*\()|^\s*((public|private|protected|internal|static|abstract|sealed|virtual|override|unsafe)\s+)+(\([^()]*\)\??\s+)?[^=;{}()]*[a-zA-Z0-9_>]\s*\(";

/// Lines of C# with two words before a bracket: a return type and a method, or the first word of a
/// statement and a call.
pub const CSHARP_CALL_SHAPE: &'static str =
    r"^\s*((internal|static|async|partial|readonly|unsafe)\s+)*[a-zA-Z_][a-zA-Z0-9_<>.]*(<[^()]*>)?(\[,*\])*\??\s+[a-zA-Z0-9_<>.]+(<[^()]*>)?\s*\(";

/// Whether `pattern` is one of the patterns for declarations.
pub open spec fn is_structural_pattern(pattern: Seq<char>) -> bool {
    pattern == RUST_PATTERN@ || pattern == PYTHON_PATTERN@ || pattern == CSHARP_PATTERN@ || pattern
        == CSHARP_CALL_SHAPE@
}

/// Calls `Regex::new`, and takes the text of its error. On machines with words of one size, the
/// same pattern always compiles, or always fails with the same text, and what it compiles to
/// matches the same texts; the patterns for declarations, which use only anchors, groups,
/// alternatives, classes and repetitions, compile.
#[verifier::external_body]
pub(crate) fn compile(pattern: &str) -> (r: Result<Regex, String>)
    ensures
        match r {
            Ok(re) => pattern_error(pattern@, usize::BITS) is None && matched_by(re)
                == matched_by_pattern(pattern@),
            Err(e) => pattern_error(pattern@, usize::BITS) == Some(e@),
        },
        is_structural_pattern(pattern@) ==> r is Ok,
{
    Regex::new(pattern).map_err(|e| e.to_string())
}

/// Calls `Regex::is_match`, which tells whether the text has a match anywhere.
#[verifier::external_body]
pub(crate) fn is_match(re: &Regex, text: &str) -> (r: bool)
    ensures
        r == matched_by(*re).contains(text@),
{
    re.is_match(text)
}

/// The regular expression for the declarations of Rust.
pub fn rust_pattern() -> (r: Regex)
    ensures
        matched_by(r) == matched_by_pattern(RUST_PATTERN@),
{
    compile(RUST_PATTERN).unwrap()
}

/// The regular expression for the declarations of Python.
pub fn python_pattern() -> (r: Regex)
    ensures
        matched_by(r) == matched_by_pattern(PYTHON_PATTERN@),
{
    compile(PYTHON_PATTERN).unwrap()
}

/// The regular expression for the declarations of C#.
pub fn csharp_pattern() -> (r: Regex)
    ensures
        matched_by(r) == matched_by_pattern(CSHARP_PATTERN@),
{
    compile(CSHARP_PATTERN).unwrap()
}

/// Whether `c` can stand in a word: an ASCII letter or digit, or an underscore.
pub open spec fn is_word_char(c: char) -> bool {
    'a' <= c <= 'z' || 'A' <= c <= 'Z' || '0' <= c <= '9' || c == '_'
}

/// The word that `s` starts with.
pub open spec fn leading_word(s: Seq<char>) -> Seq<char>
    decreases s.len(),
{
    if s.len() > 0 && is_word_char(s.first()) {
        seq![s.first()] + leading_word(s.drop_first())
    } else {
        Seq::empty()
    }
}

/// The first word of a line, if the line starts with one.
pub open spec fn first_word(line: Seq<char>) -> Seq<char> {
    leading_word(trimmed(line))
}

/// Whether `word` is one that a statement of C#, or a part of one, starts with, and that is no
/// type.
pub open spec fn is_statement_word(word: Seq<char>) -> bool {
    ||| word == "return"@
    ||| word == "await"@
    ||| word == "throw"@
    ||| word == "yield"@
    ||| word == "new"@
    ||| word == "else"@
    ||| word == "if"@
    ||| word == "do"@
    ||| word == "while"@
    ||| word == "for"@
    ||| word == "foreach"@
    ||| word == "switch"@
    ||| word == "case"@
    ||| word == "default"@
    ||| word == "goto"@
    ||| word == "break"@
    ||| word == "continue"@
    ||| word == "try"@
    ||| word == "catch"@
    ||| word == "finally"@
    ||| word == "using"@
    ||| word == "lock"@
    ||| word == "fixed"@
    ||| word == "checked"@
    ||| word == "unchecked"@
    ||| word == "stackalloc"@
    ||| word == "in"@
    ||| word == "out"@
    ||| word == "ref"@
    ||| word == "is"@
    ||| word == "as"@
    ||| word == "and"@
    ||| word == "or"@
    ||| word == "not"@
    ||| word == "when"@
    ||| word == "where"@
    ||| word == "from"@
    ||| word == "select"@
    ||| word == "let"@
    ||| word == "join"@
    ||| word == "on"@
    ||| word == "equals"@
    ||| word == "into"@
    ||| word == "orderby"@
    ||| word == "group"@
    ||| word == "by"@
}

/// Whether a line of C# declares something, given whether it matches `CSHARP_PATTERN` and
/// `CSHARP_CALL_SHAPE`. What has the shape of a call is a method, unless its first word starts a
/// statement.
pub open spec fn is_csharp_line(declares: bool, shaped: bool, line: Seq<char>) -> bool {
    declares || (shaped && !is_statement_word(first_word(line)))
}

/// Whether `line` declares something, in a file with extension `ext`. No line does where the
/// extension is not one of a known language.
pub open spec fn is_structural_line(ext: Seq<char>, line: Seq<char>) -> bool {
    if ext == "rs"@ {
        matched_by_pattern(RUST_PATTERN@).contains(line)
    } else if ext == "py"@ {
        matched_by_pattern(PYTHON_PATTERN@).contains(line)
    } else if ext == "cs"@ {
        is_csharp_line(
            matched_by_pattern(CSHARP_PATTERN@).contains(line),
            matched_by_pattern(CSHARP_CALL_SHAPE@).contains(line),
            line,
        )
    } else {
        false
    }
}

/// Whether `c` can stand in a word.
fn stands_in_word(c: char) -> (r: bool)
    ensures
        r == is_word_char(c),
{
    ('a' <= c && c <= 'z') || ('A' <= c && c <= 'Z') || ('0' <= c && c <= '9') || c == '_'
}

/// The word at the start of a text is as long as the characters of it reach.
pub proof fn lemma_leading_word(s: Seq<char>, n: int)
    requires
        0 <= n <= s.len(),
        forall|i: int| 0 <= i < n ==> is_word_char(#[trigger] s[i]),
        n < s.len() ==> !is_word_char(s[n]),
    ensures
        leading_word(s) == s.take(n),
    decreases n,
{
    if n > 0 {
        let rest = s.drop_first();
        assert forall|i: int| 0 <= i < n - 1 implies is_word_char(#[trigger] rest[i]) by {
            assert(rest[i] == s[i + 1]);
        }
        lemma_leading_word(rest, n - 1);
        assert(is_word_char(s[0]));
        assert(s.take(n) =~= seq![s.first()] + rest.take(n - 1));
    } else {
        assert(s.take(0) =~= Seq::<char>::empty());
    }
}

/// The first word of a line, if the line starts with one.
pub fn first_word_of(line: &str) -> (r: String)
    ensures
        r@ == first_word(line@),
{
    let text = trim(line);
    let chars = chars_of(text.as_str());
    let len: usize = chars.len();
    let mut n: usize = 0;
    while n < len && stands_in_word(chars[n])
        invariant
            n <= len == chars@.len(),
            forall|i: int| 0 <= i < n ==> is_word_char(#[trigger] chars@[i]),
        decreases len - n,
    {
        n = n + 1;
    }
    proof {
        lemma_leading_word(chars@, n as int);
    }
    string_of(&chars, 0, n)
}

/// Whether `word` is one that a statement of C# starts with.
pub fn starts_statement(word: &str) -> (r: bool)
    ensures
        r == is_statement_word(word@),
{
    same_text(word, "return")
        || same_text(word, "await")
        || same_text(word, "throw")
        || same_text(word, "yield")
        || same_text(word, "new")
        || same_text(word, "else")
        || same_text(word, "if")
        || same_text(word, "do")
        || same_text(word, "while")
        || same_text(word, "for")
        || same_text(word, "foreach")
        || same_text(word, "switch")
        || same_text(word, "case")
        || same_text(word, "default")
        || same_text(word, "goto")
        || same_text(word, "break")
        || same_text(word, "continue")
        || same_text(word, "try")
        || same_text(word, "catch")
        || same_text(word, "finally")
        || same_text(word, "using")
        || same_text(word, "lock")
        || same_text(word, "fixed")
        || same_text(word, "checked")
        || same_text(word, "unchecked")
        || same_text(word, "stackalloc")
        || same_text(word, "in")
        || same_text(word, "out")
        || same_text(word, "ref")
        || same_text(word, "is")
        || same_text(word, "as")
        || same_text(word, "and")
        || same_text(word, "or")
        || same_text(word, "not")
        || same_text(word, "when")
        || same_text(word, "where")
        || same_text(word, "from")
        || same_text(word, "select")
        || same_text(word, "let")
        || same_text(word, "join")
        || same_text(word, "on")
        || same_text(word, "equals")
        || same_text(word, "into")
        || same_text(word, "orderby")
        || same_text(word, "group")
        || same_text(word, "by")
}

/// Whether a line of C# declares something, given whether it matches the two patterns.
pub fn is_csharp_declaration(declares: bool, shaped: bool, line: &str) -> (r: bool)
    ensures
        r == is_csharp_line(declares, shaped, line@),
{
    declares || (shaped && !starts_statement(first_word_of(line).as_str()))
}

/// Tells the declarations of a language from its other lines.
pub struct LineMatcher {
    declaration: Regex,
    shape: Option<Regex>,
}

impl LineMatcher {
    /// Whether a line is taken for a declaration.
    pub closed spec fn takes(self, line: Seq<char>) -> bool {
        let declares = matched_by(self.declaration).contains(line);
        match self.shape {
            Some(shape) => is_csharp_line(declares, matched_by(shape).contains(line), line),
            None => declares,
        }
    }

    /// Whether `line` declares something.
    pub fn is_declaration(&self, line: &str) -> (r: bool)
        ensures
            r == self.takes(line@),
    {
        let declares = is_match(&self.declaration, line);
        match &self.shape {
            Some(shape) => is_csharp_declaration(declares, is_match(shape, line), line),
            None => declares,
        }
    }
}

/// What tells the declarations of the language that files with extension `ext` are in, if it is
/// known.
pub fn matcher_for(ext: &str) -> (r: Option<LineMatcher>)
    ensures
        match r {
            Some(matcher) => forall|line: Seq<char>| #[trigger]
                matcher.takes(line) == is_structural_line(ext@, line),
            None => ext@ != "rs"@ && ext@ != "py"@ && ext@ != "cs"@,
        },
{
    if same_text(ext, "rs") {
        Some(LineMatcher { declaration: rust_pattern(), shape: None })
    } else if same_text(ext, "py") {
        Some(LineMatcher { declaration: python_pattern(), shape: None })
    } else if same_text(ext, "cs") {
        let shape = compile(CSHARP_CALL_SHAPE).unwrap();
        Some(LineMatcher { declaration: csharp_pattern(), shape: Some(shape) })
    } else {
        None
    }
}

/// Whether `line` declares something, in a file with extension `ext`.
pub fn matches_structural_line(ext: &str, line: &str) -> (r: bool)
    ensures
        r == is_structural_line(ext@, line@),
{
    match matcher_for(ext) {
        Some(matcher) => matcher.is_declaration(line),
        None => false,
    }
}

/// A file of an unknown language has no declarations: those known are Rust, Python and C#.
pub proof fn law_unknown_extension_has_no_structure(ext: Seq<char>, line: Seq<char>)
    requires
        ext != "rs"@,
        ext != "py"@,
        ext != "cs"@,
    ensures
        !is_structural_line(ext, line),
{
}

} // verus!
