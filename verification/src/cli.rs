//! What the command line decides: how query types are named, how loud the
//! log is, whether the arguments fit together, where the configuration is
//! looked for.

use vstd::prelude::*;
use vstd::string::*;
use crate::message::QueryType;
use crate::text::chars_of;

verus! {

/// How much is logged.
#[derive(Copy, Clone, Debug, PartialEq, Eq, Structural)]
pub enum LogLevel {
    Error,
    Warn,
    Info,
    Debug,
    Trace,
}

/// The level for a number of `-v` flags: each flag one level up from
/// `Error`, `Trace` at four and beyond.
pub fn log_level(verbosity: u64) -> (level: LogLevel)
    ensures
        level == match verbosity {
            0 => LogLevel::Error,
            1 => LogLevel::Warn,
            2 => LogLevel::Info,
            3 => LogLevel::Debug,
            _ => LogLevel::Trace,
        },
{
    if verbosity == 0 {
        LogLevel::Error
    } else if verbosity == 1 {
        LogLevel::Warn
    } else if verbosity == 2 {
        LogLevel::Info
    } else if verbosity == 3 {
        LogLevel::Debug
    } else {
        LogLevel::Trace
    }
}

/// True when there are as many inputs as outputs as query types, and at
/// least one of each.
pub fn cardinalities_match(inputs: usize, outputs: usize, queries: usize) -> (ok: bool)
    ensures
        ok == (inputs == outputs && outputs == queries && inputs >= 1),
{
    inputs == outputs && outputs == queries && inputs != 0
}

/// The upper-case form of an ASCII letter; any other character itself.
pub open spec fn ascii_upper(c: char) -> char {
    if 'a' <= c && c <= 'z' {
        ((c as u32) - 32) as char
    } else {
        c
    }
}

/// The query type that `name` names, letter case aside.
pub open spec fn query_named(name: Seq<char>) -> Option<QueryType> {
    let upper = name.map_values(|c: char| ascii_upper(c));
    if upper == seq!['A'] {
        Some(QueryType::A)
    } else if upper == seq!['A', 'A', 'A', 'A'] {
        Some(QueryType::AAAA)
    } else if upper == seq!['P', 'T', 'R'] {
        Some(QueryType::PTR)
    } else if upper == seq!['N', 'S'] {
        Some(QueryType::NS)
    } else {
        None
    }
}

/// The upper-case form of an ASCII letter; any other character itself.
fn to_upper(c: char) -> (u: char)
    ensures
        u == ascii_upper(c),
{
    if c >= 'a' && c <= 'z' {
        let code: u32 = c as u32 - 32;
        assert(65 <= code <= 90);
        code as u8 as char
    } else {
        c
    }
}

impl QueryType {
    /// The names of the query types.
    pub fn variants() -> (names: [&'static str; 4])
        ensures
            names[0]@ == "A"@,
            names[1]@ == "AAAA"@,
            names[2]@ == "PTR"@,
            names[3]@ == "NS"@,
    {
        ["A", "AAAA", "PTR", "NS"]
    }

    /// The name of the query type.
    pub fn name(self) -> (s: String)
        ensures
            s@ == match self {
                QueryType::A => "A"@,
                QueryType::AAAA => "AAAA"@,
                QueryType::PTR => "PTR"@,
                QueryType::NS => "NS"@,
            },
    {
        match self {
            QueryType::A => String::from_str("A"),
            QueryType::AAAA => String::from_str("AAAA"),
            QueryType::PTR => String::from_str("PTR"),
            QueryType::NS => String::from_str("NS"),
        }
    }

    /// The query type that `name` names, letter case aside.
    pub fn from_name(name: &str) -> (q: Option<QueryType>)
        ensures
            q == query_named(name@),
    {
        let chars = chars_of(name);
        let mut upper: Vec<char> = Vec::new();
        let mut i: usize = 0;
        while i < chars.len()
            invariant
                i <= chars.len(),
                upper@ == chars@.subrange(0, i as int).map_values(|c: char| ascii_upper(c)),
            decreases chars.len() - i,
        {
            upper.push(to_upper(chars[i]));
            i += 1;
            assert(upper@ == chars@.subrange(0, i as int).map_values(|c: char| ascii_upper(c)));
        }
        assert(chars@.subrange(0, chars.len() as int) == chars@);
        let n: usize = upper.len();
        if n == 1 && upper[0] == 'A' {
            assert(upper@ == seq!['A']);
            Some(QueryType::A)
        } else if n == 4 && upper[0] == 'A' && upper[1] == 'A' && upper[2] == 'A' && upper[3] == 'A' {
            assert(upper@ == seq!['A', 'A', 'A', 'A']);
            Some(QueryType::AAAA)
        } else if n == 3 && upper[0] == 'P' && upper[1] == 'T' && upper[2] == 'R' {
            assert(upper@ == seq!['P', 'T', 'R']);
            Some(QueryType::PTR)
        } else if n == 2 && upper[0] == 'N' && upper[1] == 'S' {
            assert(upper@ == seq!['N', 'S']);
            Some(QueryType::NS)
        } else {
            proof {
                let a = seq!['A'];
                let aaaa = seq!['A', 'A', 'A', 'A'];
                let ptr = seq!['P', 'T', 'R'];
                let ns = seq!['N', 'S'];
                if upper@ == a {
                    assert(a.len() == 1 && a[0] == 'A');
                }
                if upper@ == aaaa {
                    assert(aaaa.len() == 4 && aaaa[0] == 'A' && aaaa[1] == 'A' && aaaa[2] == 'A'
                        && aaaa[3] == 'A');
                }
                if upper@ == ptr {
                    assert(ptr.len() == 3 && ptr[0] == 'P' && ptr[1] == 'T' && ptr[2] == 'R');
                }
                if upper@ == ns {
                    assert(ns.len() == 2 && ns[0] == 'N' && ns[1] == 'S');
                }
            }
            None
        }
    }
}

/// Where the configuration is looked for, first hit first. A path given on
/// the command line is the only place. Without one the places are the file
/// `batch_resolve.toml` in the working directory, the file
/// `.config/batch_resolve.toml` under the user's home directory `home`
/// (left out when no home directory is known), and
/// `/etc/batch_resolve.toml`.
pub fn config_locations(arg_path: Option<&str>, home: Option<&str>) -> (paths: Vec<String>)
    ensures
        arg_path is Some ==> paths@.len() == 1 && paths@[0]@ == arg_path->0@,
        arg_path is None && home is Some ==> paths@.len() == 3 && paths@[0]@
            == "batch_resolve.toml"@ && paths@[1]@ == home->0@ + "/.config/batch_resolve.toml"@
            && paths@[2]@ == "/etc/batch_resolve.toml"@,
        arg_path is None && home is None ==> paths@.len() == 2 && paths@[0]@
            == "batch_resolve.toml"@ && paths@[1]@ == "/etc/batch_resolve.toml"@,
{
    let mut paths: Vec<String> = Vec::new();
    match arg_path {
        Some(path) => {
            paths.push(String::from_str(path));
        },
        None => {
            paths.push(String::from_str("batch_resolve.toml"));
            match home {
                Some(dir) => {
                    let mut under_home = String::from_str(dir);
                    under_home.append("/.config/batch_resolve.toml");
                    paths.push(under_home);
                },
                None => {},
            }
            paths.push(String::from_str("/etc/batch_resolve.toml"));
        },
    }
    paths
}

/// `i` is the first place at which a file is present.
pub open spec fn is_first_present(present: Seq<bool>, i: int) -> bool {
    &&& 0 <= i < present.len()
    &&& present[i]
    &&& forall|j: int| 0 <= j < i ==> !present[j]
}

/// Which place the configuration is read from: the first at which a file
/// is present, and no other; none when no place holds a file.
pub fn first_present(present: &Vec<bool>) -> (hit: Option<usize>)
    ensures
        match hit {
            Some(i) => is_first_present(present@, i as int),
            None => forall|j: int| 0 <= j < present@.len() ==> !present@[j],
        },
{
    let mut i: usize = 0;
    while i < present.len()
        invariant
            i <= present.len(),
            forall|j: int| 0 <= j < i ==> !present@[j],
        decreases present.len() - i,
    {
        if present[i] {
            return Some(i);
        }
        i += 1;
    }
    None
}

} // verus!
