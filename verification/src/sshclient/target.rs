//! The address of the remote host: `<user>@<host>[:<port>]`.

use crate::error::{ErrorView, SeeedError};
use vstd::prelude::*;

verus! {

/// The error type of the pattern compiler, which the library carries and
/// never looks into.
#[verifier::external_type_specification]
#[verifier::external_body]
pub struct ExPatternError(regex::Error);

/// Whether the pattern compiler accepts a pattern.
pub uninterp spec fn pattern_compiles(pattern: Seq<char>) -> bool;

/// What the groups of a pattern capture in a text: nothing where the
/// pattern matches nowhere in the text; else, for each group in the order of
/// its opening parenthesis, the whole match being the first, the text it
/// captured if it took part in the match.
pub uninterp spec fn pattern_groups(pattern: Seq<char>, text: Seq<char>) -> Option<
    Seq<Option<Seq<char>>>,
>;

/// The model of what groups captured.
pub open spec fn groups_view(found: Option<Vec<Option<String>>>) -> Option<Seq<Option<Seq<char>>>> {
    match found {
        Some(groups) => Some(
            Seq::new(
                groups@.len(),
                |i: int|
                    match groups@[i] {
                        Some(text) => Some(text@),
                        None => None,
                    },
            ),
        ),
        None => None,
    }
}

/// Compiles `pattern` with `regex::Regex::new` and matches it against
/// `text` with `Regex::captures`. An error means that the compiler refused
/// the pattern. Which patterns compile and what the groups capture is only
/// named: both are functions of the arguments.
#[verifier::external_body]
pub(crate) fn capture(pattern: &str, text: &str) -> (r: Result<
    Option<Vec<Option<String>>>,
    regex::Error,
>)
    ensures
        r is Ok <==> pattern_compiles(pattern@),
        r matches Ok(found) ==> groups_view(found) == pattern_groups(pattern@, text@),
{
    let compiled = regex::Regex::new(pattern)?;
    Ok(
        compiled.captures(text).map(
            |found| found.iter().map(|group| group.map(|m| m.as_str().to_owned())).collect(),
        ),
    )
}

/// Where a session goes: the user, the host and the port.
#[derive(Debug, PartialEq, Eq)]
pub struct Target {
    pub user: String,
    pub host: String,
    pub port: u16,
}

/// The mathematical model of a [`Target`].
pub struct TargetView {
    pub user: Seq<char>,
    pub host: Seq<char>,
    pub port: int,
}

impl View for Target {
    type V = TargetView;

    open spec fn view(&self) -> TargetView {
        TargetView { user: self.user@, host: self.host@, port: self.port as int }
    }
}

/// The pattern of a target address.
pub open spec fn target_pattern() -> Seq<char> {
    "^(?P<username>[^:@]+)@(?P<hostname>[^:]+)(:(?P<port>\\d+))?$"@
}

/// The port of a session that names none.
pub const DEFAULT_PORT: u16 = 22;

/// The number that the decimal digits of `text` write, where `text` is made
/// of ASCII digits alone.
pub open spec fn digits_value(text: Seq<char>) -> Option<int>
    decreases text.len(),
{
    if text.len() == 0 {
        Some(0)
    } else if '0' <= text.last() && text.last() <= '9' {
        match digits_value(text.drop_last()) {
            Some(value) => Some(value * 10 + (text.last() as int - '0' as int)),
            None => None,
        }
    } else {
        None
    }
}

/// The port that `text` writes: a number of at most 65535, written in
/// ASCII digits.
pub open spec fn port_number(text: Seq<char>) -> Option<int> {
    match digits_value(text) {
        Some(value) => if text.len() > 0 && value <= 65535 {
            Some(value)
        } else {
            None
        },
        None => None,
    }
}

proof fn lemma_digits_grow(text: Seq<char>, k: int)
    requires
        0 <= k <= text.len(),
        digits_value(text) is Some,
    ensures
        digits_value(text.take(k)) is Some,
        0 <= digits_value(text.take(k))->0 <= digits_value(text)->0,
    decreases text.len() - k,
{
    if k == text.len() {
        assert(text.take(k) =~= text);
        lemma_digits_nonnegative(text);
    } else {
        assert(text.drop_last().take(k) =~= text.take(k));
        lemma_digits_grow(text.drop_last(), k);
    }
}

proof fn lemma_digits_nonnegative(text: Seq<char>)
    ensures
        digits_value(text) matches Some(value) ==> value >= 0,
    decreases text.len(),
{
    if text.len() > 0 {
        lemma_digits_nonnegative(text.drop_last());
    }
}

proof fn lemma_digits_prefix(text: Seq<char>, k: int)
    requires
        0 <= k <= text.len(),
        digits_value(text.take(k)) is None,
    ensures
        digits_value(text) is None,
    decreases text.len() - k,
{
    if k == text.len() {
        assert(text.take(k) =~= text);
    } else {
        assert(text.drop_last().take(k) =~= text.take(k));
        lemma_digits_prefix(text.drop_last(), k);
    }
}

/// Reads a port number.
pub fn read_port(text: &str) -> (r: Option<u16>)
    ensures
        match r {
            Some(port) => port_number(text@) == Some(port as int),
            None => port_number(text@) is None,
        },
{
    broadcast use vstd::string::group_string_axioms;

    let mut value: u32 = 0;
    let mut count: usize = 0;
    for c in it: text.chars()
        invariant
            it.seq() == text@,
            digits_value(text@.take(it.index() as int)) == Some(value as int),
            value <= 65535,
            (count == 0) == (it.index() == 0),
    {
        let ghost before = it.index() as int;
        proof {
            assert(text@.take(before + 1).drop_last() =~= text@.take(before));
            assert(text@.take(before + 1).last() == c);
        }
        if c < '0' || c > '9' {
            proof {
                lemma_digits_prefix(text@, before + 1);
            }
            return None;
        }
        let digit: u32 = (c as u32) - ('0' as u32);
        value = value * 10 + digit;
        if value > 65535 {
            proof {
                if digits_value(text@) is Some {
                    lemma_digits_grow(text@, before + 1);
                }
            }
            return None;
        }
        count = 1;
    }
    assert(text@.take(text@.len() as int) =~= text@);
    if count == 0 {
        None
    } else {
        Some(value as u16)
    }
}

/// The target that the groups of the pattern stand for: the second group is
/// the user, the third the host, the fifth the port where there is one.
pub open spec fn target_from(groups: Option<Seq<Option<Seq<char>>>>) -> Result<
    TargetView,
    ErrorView,
> {
    match groups {
        Some(found) => if found.len() == 5 {
            match (found[1], found[2], found[4]) {
                (Some(user), Some(host), Some(digits)) => match port_number(digits) {
                    Some(port) => Ok(TargetView { user, host, port }),
                    None => Err(ErrorView::BadTarget),
                },
                (Some(user), Some(host), None) => Ok(
                    TargetView { user, host, port: DEFAULT_PORT as int },
                ),
                _ => Err(ErrorView::BadTarget),
            }
        } else {
            Err(ErrorView::BadTarget)
        },
        None => Err(ErrorView::BadTarget),
    }
}

/// The model of the outcome of reading a target.
pub open spec fn target_result(r: Result<Target, SeeedError>) -> Result<TargetView, ErrorView> {
    match r {
        Ok(target) => Ok(target@),
        Err(error) => Err(error@),
    }
}

/// Makes a target of what the groups of the pattern captured. An address
/// that the pattern does not match, or whose port is no number of at most
/// 65535, is a bad target. Without a port, the port is 22.
pub fn target_from_groups(found: Option<Vec<Option<String>>>) -> (r: Result<Target, SeeedError>)
    ensures
        target_result(r) == target_from(groups_view(found)),
{
    match found {
        Some(groups) => {
            if groups.len() != 5 {
                return Err(SeeedError::BadTarget);
            }
            match (&groups[1], &groups[2], &groups[4]) {
                (Some(user), Some(host), Some(digits)) => match read_port(digits.as_str()) {
                    Some(port) => Ok(Target { user: user.clone(), host: host.clone(), port }),
                    None => Err(SeeedError::BadTarget),
                },
                (Some(user), Some(host), None) => Ok(
                    Target { user: user.clone(), host: host.clone(), port: DEFAULT_PORT },
                ),
                _ => Err(SeeedError::BadTarget),
            }
        },
        None => Err(SeeedError::BadTarget),
    }
}

/// What a target address stands for.
pub open spec fn target_of_address(address: Seq<char>) -> Result<TargetView, ErrorView> {
    if pattern_compiles(target_pattern()) {
        target_from(pattern_groups(target_pattern(), address))
    } else {
        Err(ErrorView::BadTarget)
    }
}

/// Reads a target address of the form `<user>@<host>[:<port>]`.
pub fn parse_target(address: &str) -> (r: Result<Target, SeeedError>)
    ensures
        target_result(r) == target_of_address(address@),
{
    match capture("^(?P<username>[^:@]+)@(?P<hostname>[^:]+)(:(?P<port>\\d+))?$", address) {
        Ok(found) => target_from_groups(found),
        Err(_) => Err(SeeedError::BadTarget),
    }
}

} // verus!
