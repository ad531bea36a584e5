//! Exclude patterns with `*` wildcards, matched through the `regex` crate.
use vstd::prelude::*;
use vstd::string::*;

verus! {

#[verifier::external_type_specification]
#[verifier::external_body]
pub struct ExRegex(regex::Regex);

/// Whether `regex::Regex::new` accepts `pattern`.
pub uninterp spec fn regex_accepts(pattern: Seq<char>) -> bool;

/// Whether the regex compiled from `pattern` matches somewhere in `text`
/// (what `regex::Regex::is_match` answers).
pub uninterp spec fn regex_finds(pattern: Seq<char>, text: Seq<char>) -> bool;

/// A compiled regex together with the pattern it was compiled from. Only
/// `compile_regex` builds one.
pub struct CompiledRegex {
    source: String,
    re: regex::Regex,
}

impl CompiledRegex {
    pub closed spec fn source(&self) -> Seq<char> {
        self.source@
    }
}

/// Calls `regex::Regex::new(pattern)`. Trusted: it succeeds exactly when the
/// pattern is accepted, and the value it gives back was compiled from `pattern`.
#[verifier::external_body]
fn compile_regex(pattern: &str) -> (r: Option<CompiledRegex>)
    ensures
        r is Some <==> regex_accepts(pattern@),
        r matches Some(c) ==> c.source() == pattern@,
{
    match regex::Regex::new(pattern) {
        Ok(re) => Some(CompiledRegex { source: pattern.to_string(), re }),
        Err(_) => None,
    }
}

/// Calls `regex::Regex::is_match(text)`. Trusted: the answer is the one the
/// crate gives for the regex's source pattern and `text`.
#[verifier::external_body]
fn regex_is_match(c: &CompiledRegex, text: &str) -> (b: bool)
    ensures
        b == regex_finds(c.source(), text@),
{
    c.re.is_match(text)
}

/// What one pattern character becomes in the regex: `.` is escaped, `*`
/// stands for any run of characters, everything else is kept.
pub open spec fn glob_char(c: char) -> Seq<char> {
    if c == '.' {
        seq!['\\', '.']
    } else if c == '*' {
        seq!['.', '*']
    } else {
        seq![c]
    }
}

/// The regex for a wildcard pattern: `pattern` with every `.` replaced by `\.`
/// and then every `*` by `.*`.
pub open spec fn glob_regex(pattern: Seq<char>) -> Seq<char>
    decreases pattern.len(),
{
    if pattern.len() == 0 {
        seq![]
    } else {
        glob_regex(pattern.drop_last()) + glob_char(pattern.last())
    }
}

/// Builds the regex source for a wildcard pattern.
pub fn glob_to_regex(pattern: &str) -> (r: String)
    ensures
        r@ == glob_regex(pattern@),
{
    let n = pattern.unicode_len();
    let mut r = String::new();
    let mut i: usize = 0;
    proof {
        reveal_strlit("\\.");
        reveal_strlit(".*");
    }
    assert(pattern@.subrange(0, 0) =~= Seq::<char>::empty());
    while i < n
        invariant
            n == pattern@.len(),
            i <= n,
            r@ == glob_regex(pattern@.subrange(0, i as int)),
            "\\."@ == seq!['\\', '.'],
            ".*"@ == seq!['.', '*'],
        decreases n - i,
    {
        let c = pattern.get_char(i);
        let ghost prefix = pattern@.subrange(0, i + 1);
        assert(prefix.drop_last() =~= pattern@.subrange(0, i as int));
        assert(prefix.last() == c);
        if c == '.' {
            r.append("\\.");
        } else if c == '*' {
            r.append(".*");
        } else {
            let one = pattern.substring_char(i, i + 1);
            assert(one@ =~= seq![c]);
            r.append(one);
        }
        i = i + 1;
    }
    assert(pattern@.subrange(0, n as int) =~= pattern@);
    r
}

/// Whether the wildcard `pattern` matches somewhere in `name`: the pattern is
/// turned into a regex, and a pattern whose regex does not compile matches
/// nothing.
pub fn glob_matches(pattern: &str, name: &str) -> (b: bool)
    ensures
        b == (regex_accepts(glob_regex(pattern@)) && regex_finds(glob_regex(pattern@), name@)),
{
    let source = glob_to_regex(pattern);
    match compile_regex(source.as_str()) {
        Some(re) => regex_is_match(&re, name),
        None => false,
    }
}

} // verus!
