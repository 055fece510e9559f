use vstd::prelude::*;

use crate::text::chars_of;

verus! {

/// One proxied request, as it is written to the request log.
#[derive(Debug, PartialEq)]
pub struct LogEntry {
    pub timestamp: String,
    pub source: String,
    pub model: String,
    pub tokens_in: i64,
    pub tokens_out: i64,
    pub latency_ms: i64,
    pub status: String,
}

/// `rel` appended to the path `base`, with a `/` between them where `base`
/// is not empty and does not already end in one.
pub open spec fn joined_path(base: Seq<char>, rel: Seq<char>) -> Seq<char> {
    if base.len() == 0 {
        rel
    } else if base.last() == '/' {
        base + rel
    } else {
        base + seq!['/'] + rel
    }
}

/// The location of the request log: `.omni-code/logs.db` under the home
/// directory, or under `.` where the home directory is not known.
pub open spec fn log_path(home: Option<Seq<char>>) -> Seq<char> {
    joined_path(
        match home {
            Some(h) => h,
            None => "."@,
        },
        ".omni-code/logs.db"@,
    )
}

/// The path of the request log, for the home directory `home`.
pub fn db_path(home: Option<&str>) -> (r: String)
    ensures
        r@ == log_path(
            match home {
                Some(h) => Some(h@),
                None => None,
            },
        ),
{
    let base = match home {
        Some(h) => h,
        None => ".",
    };
    let cs = chars_of(base);
    let mut r = base.to_owned();
    if cs.len() > 0 && cs[cs.len() - 1] != '/' {
        r.push('/');
    }
    r.append(".omni-code/logs.db");
    r
}

} // verus!
