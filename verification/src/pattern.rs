//! Regular expressions and quoted texts.
use vstd::prelude::*;

use crate::table::Dup;
use crate::text::{chars_of, oview, push_char, Str};

verus! {

/// What `regex::Regex::new` says against an expression; `None` where it takes it.
pub uninterp spec fn regex_fault(p: Seq<char>) -> Option<Seq<char>>;

/// The expression fits somewhere in the text (`regex::Regex::is_match`); an expression with a fault
/// fits nowhere.
pub uninterp spec fn regex_matches(p: Seq<char>, t: Seq<char>) -> bool;

/// A text in double quotes as it is shown for debugging (`str` in `{:?}`).
pub uninterp spec fn quoted(s: Seq<char>) -> Seq<char>;

/// `regex::Regex::new`: the fault of an expression. The same expression always has the same fault or
/// none; which expressions have one is not stated here.
#[verifier::external_body]
fn compile_fault(p: &str) -> (r: Option<String>)
    ensures
        oview(r) == regex_fault(p@),
{
    regex::Regex::new(p).err().map(|e| e.to_string())
}

/// `regex::Regex::is_match` of the expression made from `p`. The same expression and text always give
/// the same answer; an expression with a fault has no match.
#[verifier::external_body]
fn find_match(p: &str, t: &str) -> (r: bool)
    ensures
        r == regex_matches(p@, t@),
        regex_fault(p@) is Some ==> !r,
{
    match regex::Regex::new(p) {
        Ok(re) => re.is_match(t),
        Err(_) => false,
    }
}

/// The characters that mean something in an expression.
pub open spec fn is_meta(c: char) -> bool {
    c == '\\' || c == '.' || c == '+' || c == '*' || c == '?' || c == '(' || c == ')' || c == '|' || c == '['
        || c == ']' || c == '{' || c == '}' || c == '^' || c == '$' || c == '#' || c == '&' || c == '-' || c == '~'
}

/// The first `n` characters with a backslash before each that means something in an expression.
pub open spec fn escaped_upto(s: Str, n: int) -> Str
    decreases n,
{
    if n <= 0 {
        Seq::empty()
    } else if is_meta(s[n - 1]) {
        escaped_upto(s, n - 1).push('\\').push(s[n - 1])
    } else {
        escaped_upto(s, n - 1).push(s[n - 1])
    }
}

/// The text with a backslash before each character that means something in an expression.
pub open spec fn escaped(s: Str) -> Str {
    escaped_upto(s, s.len() as int)
}

fn meta(c: char) -> (r: bool)
    ensures
        r == is_meta(c),
{
    matches!(
        c,
        '\\' | '.' | '+' | '*' | '?' | '(' | ')' | '|' | '[' | ']' | '{' | '}' | '^' | '$' | '#' | '&' | '-' | '~'
    )
}

/// The text with a backslash before each character that means something in an expression: as an expression it
/// fits the text itself.
pub(crate) fn escape(s: &str) -> (r: String)
    ensures
        r@ == escaped(s@),
{
    let v = chars_of(s);
    let mut out = String::new();
    let mut i: usize = 0;
    proof {
        assert(out@ =~= Seq::empty());
    }
    while i < v.len()
        invariant
            i <= v.len(),
            v@ == s@,
            out@ == escaped_upto(s@, i as int),
        decreases v.len() - i,
    {
        if meta(v[i]) {
            push_char(&mut out, '\\');
        }
        push_char(&mut out, v[i]);
        i = i + 1;
    }
    out
}

/// A text in double quotes, formatted with `{:?}`. The same text is always quoted in the same way.
#[verifier::external_body]
pub(crate) fn quote(s: &str) -> (r: String)
    ensures
        r@ == quoted(s@),
{
    format!("{s:?}")
}

/// A regular expression that was taken.
#[derive(Debug, PartialEq)]
pub struct Pattern {
    pub text: String,
}

impl View for Pattern {
    type V = Str;

    open spec fn view(&self) -> Str {
        self.text@
    }
}

impl Dup for Pattern {
    fn dup(&self) -> (r: Self) {
        Pattern { text: self.text.clone() }
    }
}

impl Pattern {
    /// Make a pattern of an expression; where the expression has a fault, return it.
    pub fn new(p: &str) -> (r: Result<Pattern, String>)
        ensures
            match r {
                Ok(re) => re@ == p@ && regex_fault(p@) is None,
                Err(e) => regex_fault(p@) == Some(e@),
            },
    {
        match compile_fault(p) {
            Some(e) => Err(e),
            None => Ok(Pattern { text: p.to_owned() }),
        }
    }

    /// The pattern fits somewhere in the text.
    pub fn is_match(&self, t: &str) -> (r: bool)
        ensures
            r == regex_matches(self@, t@),
    {
        find_match(self.text.as_str(), t)
    }
}

/// The expression that fits a whole text where `p` fits it.
pub open spec fn whole(p: Str) -> Str {
    "^(?:"@ + p + ")$"@
}

/// The expression that fits a whole text where `p` fits it.
pub fn whole_text(p: &str) -> (r: String)
    ensures
        r@ == whole(p@),
{
    let mut s = "^(?:".to_owned();
    s.append(p);
    s.append(")$");
    s
}

} // verus!
