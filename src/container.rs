//! Deciding how to launch a container: count the containers of that name
//! that exist already, then resume one or create and run a new one.
//!
//! The count asks for containers, not images: `docker start` resumes a
//! container, and `docker run --name` creates one under that name, so the
//! question that decides between them is whether a container of that name
//! exists. A listing line matches only when it is the whole name, so that a
//! name that is part of another is not counted.

use vstd::prelude::*;
use crate::text::{views, word};
use crate::repository::is_blank;
use crate::error::{ErrorKind, ProcessError};

verus! {

/// What lowercasing a name gives.
pub uninterp spec fn lowercase_of(s: Seq<char>) -> Seq<char>;

/// Relies on `str::to_lowercase`: the result depends on the characters of
/// `s` alone.
#[verifier::external_body]
fn lowercase(s: &str) -> (r: String)
    ensures
        r@ == lowercase_of(s@),
{
    s.to_lowercase()
}

/// The name of the container (and of its image) that a label stands for:
/// the label in lower case.
pub fn container_name(label: &str) -> (r: String)
    ensures
        r@ == lowercase_of(label@),
{
    lowercase(label)
}

/// The first stage of the count: list the names of all local containers,
/// one per line, with elevated rights.
pub open spec fn listing_args() -> Seq<Seq<char>> {
    seq!["pkexec"@, "docker"@, "ps"@, "-a"@, "--format"@, "{{.Names}}"@]
}

/// The second stage: keep the lines that are exactly `name`.
pub open spec fn filter_args(name: Seq<char>) -> Seq<Seq<char>> {
    seq!["grep"@, "-F"@, "-x"@, "--"@, name]
}

/// The third stage: count the lines kept.
pub open spec fn counting_args() -> Seq<Seq<char>> {
    seq!["wc"@, "-l"@]
}

pub fn listing_command() -> (r: Vec<String>)
    ensures
        views(r@) == listing_args(),
{
    let r = vec![
        word("pkexec"),
        word("docker"),
        word("ps"),
        word("-a"),
        word("--format"),
        word("{{.Names}}"),
    ];
    assert(views(r@) =~= listing_args());
    r
}

pub fn filter_command(name: &String) -> (r: Vec<String>)
    ensures
        views(r@) == filter_args(name@),
{
    let r = vec![word("grep"), word("-F"), word("-x"), word("--"), name.clone()];
    assert(views(r@) =~= filter_args(name@));
    r
}

pub fn counting_command() -> (r: Vec<String>)
    ensures
        views(r@) == counting_args(),
{
    let r = vec![word("wc"), word("-l")];
    assert(views(r@) =~= counting_args());
    r
}

/// `s` without the blanks that it starts with.
pub open spec fn trim_start(s: Seq<char>) -> Seq<char>
    decreases s.len(),
{
    if s.len() > 0 && is_blank(s[0]) {
        trim_start(s.drop_first())
    } else {
        s
    }
}

/// `s` without the blanks that it ends with.
pub open spec fn trim_end(s: Seq<char>) -> Seq<char>
    decreases s.len(),
{
    if s.len() > 0 && is_blank(s.last()) {
        trim_end(s.drop_last())
    } else {
        s
    }
}

pub open spec fn is_digit(c: char) -> bool {
    '0' <= c && c <= '9'
}

/// The number that a run of decimal digits writes.
pub open spec fn decimal_value(s: Seq<char>) -> nat
    decreases s.len(),
{
    if s.len() == 0 {
        0
    } else {
        decimal_value(s.drop_last()) * 10 + (s.last() as nat - '0' as nat) as nat
    }
}

/// The count that the counting stage printed: one or more decimal digits,
/// with blanks around them, of a value that fits in 64 bits. Anything else
/// is no count.
pub open spec fn count_of(output: Seq<char>) -> Option<nat> {
    let t = trim_end(trim_start(output));
    if t.len() > 0 && (forall|i: int| 0 <= i < t.len() ==> is_digit(#[trigger] t[i]))
        && decimal_value(t) <= u64::MAX {
        Some(decimal_value(t))
    } else {
        None
    }
}

proof fn lemma_decimal_grows(s: Seq<char>, j: int)
    requires
        0 <= j <= s.len(),
        forall|i: int| 0 <= i < s.len() ==> is_digit(#[trigger] s[i]),
    ensures
        decimal_value(s.take(j)) <= decimal_value(s),
    decreases s.len() - j,
{
    if j < s.len() {
        lemma_decimal_grows(s, j + 1);
        assert(s.take(j + 1).drop_last() =~= s.take(j));
        assert(is_digit(s.take(j + 1).last()));
    } else {
        assert(s.take(j) =~= s);
    }
}

fn digit(c: char) -> (r: bool)
    ensures
        r == is_digit(c),
{
    '0' <= c && c <= '9'
}

fn blank(c: char) -> (r: bool)
    ensures
        r == is_blank(c),
{
    c == ' ' || c == '\t' || c == '\n' || c == '\u{b}' || c == '\u{c}' || c == '\r'
}

fn decode_failure() -> (e: ProcessError)
    ensures
        e.kind == ErrorKind::DecodeFailure,
{
    ProcessError::new(ErrorKind::DecodeFailure, word("the count is not a number"))
}

/// Reads what the counting stage printed as the number of containers.
pub fn parse_count(output: &str) -> (r: Result<u64, ProcessError>)
    ensures
        match r {
            Ok(n) => count_of(output@) == Some(n as nat),
            Err(e) => count_of(output@) is None && e.kind == ErrorKind::DecodeFailure,
        },
{
    let mut cs: Vec<char> = Vec::new();
    for c in it: output.chars()
        invariant
            it.seq() == output@,
            cs@ == output@.take(it.index() as int),
    {
        cs.push(c);
        assert(cs@ =~= output@.take(it.index() as int + 1));
    }
    assert(cs@ =~= output@);
    let ghost s = output@;
    let mut a: usize = 0;
    while a < cs.len() && blank(cs[a])
        invariant
            cs@ == s,
            a <= cs.len(),
            trim_start(s) == trim_start(s.subrange(a as int, s.len() as int)),
        decreases cs.len() - a,
    {
        assert(s.subrange(a as int, s.len() as int).drop_first() =~= s.subrange(
            a as int + 1,
            s.len() as int,
        ));
        a = a + 1;
    }
    assert(trim_start(s) == s.subrange(a as int, s.len() as int));
    let mut b: usize = cs.len();
    while b > a && blank(cs[b - 1])
        invariant
            cs@ == s,
            a <= b <= cs.len(),
            trim_start(s) == s.subrange(a as int, s.len() as int),
            trim_end(trim_start(s)) == trim_end(s.subrange(a as int, b as int)),
        decreases b,
    {
        assert(s.subrange(a as int, b as int).drop_last() =~= s.subrange(a as int, b as int - 1));
        b = b - 1;
    }
    let ghost t = s.subrange(a as int, b as int);
    assert(trim_end(trim_start(s)) == t);
    if a == b {
        return Err(decode_failure());
    }
    let mut value: u64 = 0;
    let mut i: usize = a;
    while i < b
        invariant
            cs@ == s,
            a <= i <= b <= cs.len(),
            t == s.subrange(a as int, b as int),
            s == output@,
            trim_end(trim_start(output@)) == t,
            forall|j: int| 0 <= j < i - a ==> is_digit(#[trigger] t[j]),
            value as nat == decimal_value(t.take(i - a)),
        decreases b - i,
    {
        let c = cs[i];
        assert(t[i - a] == c);
        if !digit(c) {
            assert(!is_digit(t[i - a]));
            assert(count_of(output@) is None);
            return Err(decode_failure());
        }
        let d = (c as u32 - '0' as u32) as u64;
        assert(t.take(i - a + 1).drop_last() =~= t.take(i - a));
        assert(t.take(i - a + 1).last() == c);
        if value > (u64::MAX - d) / 10 {
            proof {
                assert(value * 10 + d > u64::MAX) by (nonlinear_arith)
                    requires
                        value > (u64::MAX - d) / 10,
                        d <= 9,
                ;
                assert(decimal_value(t.take(i - a + 1)) == value * 10 + d);
                if forall|j: int| 0 <= j < t.len() ==> is_digit(#[trigger] t[j]) {
                    lemma_decimal_grows(t, i - a + 1);
                }
                assert(count_of(output@) is None);
            }
            return Err(decode_failure());
        }
        proof {
            assert(value * 10 + d <= u64::MAX) by (nonlinear_arith)
                requires
                    value <= (u64::MAX - d) / 10,
                    d <= 9,
            ;
        }
        value = value * 10 + d;
        i = i + 1;
    }
    assert(t.take(b - a) =~= t);
    Ok(value)
}

/// Reading the count keeps no state: the same output of the counting stage,
/// read twice, gives the same count, or no count both times.
pub proof fn law_count_repeatable(first: Seq<char>, second: Seq<char>)
    requires
        first == second,
    ensures
        count_of(first) == count_of(second),
{
}

/// What to do for a container name.
#[derive(Debug, PartialEq, Eq)]
pub enum LaunchDecision {
    /// A container of that name exists: start it and attach to it.
    Resume(String),
    /// None exists: create one from the image of that name and run a shell
    /// in it.
    CreateAndRun(String),
}

/// The host name that a new container gets.
pub open spec fn host_name() -> Seq<char> {
    "10-slib"@
}

/// Start the existing container `name` in a terminal, attached.
pub open spec fn resume_args(name: Seq<char>) -> Seq<Seq<char>> {
    seq!["kitty"@, "sudo"@, "docker"@, "start"@, name, "-i"@]
}

/// Create a container `name` from the image `name`, with a fixed host name
/// and locale, and run a login shell in it, in a terminal.
pub open spec fn create_args(name: Seq<char>) -> Seq<Seq<char>> {
    seq![
        "kitty"@,
        "sudo"@,
        "docker"@,
        "run"@,
        "--name"@,
        name,
        "-h"@,
        host_name(),
        "-e"@,
        "LANG=C.UTF-8"@,
        "-it"@,
        name,
        "/bin/bash"@,
        "-l"@,
    ]
}

pub open spec fn launch_args(d: LaunchDecision) -> Seq<Seq<char>> {
    match d {
        LaunchDecision::Resume(name) => resume_args(name@),
        LaunchDecision::CreateAndRun(name) => create_args(name@),
    }
}

/// Resume when a container of that name exists (`count > 0`), else create
/// and run one.
pub fn decide_launch(name: String, count: u64) -> (r: LaunchDecision)
    ensures
        count > 0 ==> r == LaunchDecision::Resume(name),
        count == 0 ==> r == LaunchDecision::CreateAndRun(name),
{
    if count > 0 {
        LaunchDecision::Resume(name)
    } else {
        LaunchDecision::CreateAndRun(name)
    }
}

impl LaunchDecision {
    /// The container name that the decision is about.
    pub fn name(&self) -> (r: &String)
        ensures
            r == match self {
                LaunchDecision::Resume(n) => n,
                LaunchDecision::CreateAndRun(n) => n,
            },
    {
        match self {
            LaunchDecision::Resume(n) => n,
            LaunchDecision::CreateAndRun(n) => n,
        }
    }

    /// The program and arguments that carry the decision out.
    pub fn command(&self) -> (r: Vec<String>)
        ensures
            views(r@) == launch_args(*self),
    {
        match self {
            LaunchDecision::Resume(name) => {
                let r = vec![
                    word("kitty"),
                    word("sudo"),
                    word("docker"),
                    word("start"),
                    name.clone(),
                    word("-i"),
                ];
                assert(views(r@) =~= resume_args(name@));
                r
            },
            LaunchDecision::CreateAndRun(name) => {
                let r = vec![
                    word("kitty"),
                    word("sudo"),
                    word("docker"),
                    word("run"),
                    word("--name"),
                    name.clone(),
                    word("-h"),
                    word("10-slib"),
                    word("-e"),
                    word("LANG=C.UTF-8"),
                    word("-it"),
                    name.clone(),
                    word("/bin/bash"),
                    word("-l"),
                ];
                assert(views(r@) =~= create_args(name@));
                r
            },
        }
    }
}

} // verus!
