//! Index of a support archive: which entries are server logs, client logs or
//! the server configuration sheet.

use vstd::prelude::*;
use vstd::string::*;

pub mod sheet;

verus! {

/// What an archive entry holds, by its name.
#[derive(Clone, Copy, Debug, PartialEq, Eq, Structural)]
pub enum EntryKind {
    ServerLog,
    ClientLog,
    ConfigurationSheet,
    Other,
}

/// The time an archive entry was last modified, as the archive records it.
#[derive(Clone, Copy, Debug, PartialEq, Eq, Structural)]
pub struct ArchiveTime {
    pub year: u16,
    pub month: u8,
    pub day: u8,
    pub hour: u8,
    pub minute: u8,
    pub second: u8,
}

/// A log file inside an archive.
#[derive(Debug)]
pub struct LogEntry {
    pub name: String,
    pub modified: ArchiveTime,
}

pub open spec fn has_prefix(s: Seq<char>, p: Seq<char>) -> bool {
    p.len() <= s.len() && s.subrange(0, p.len() as int) == p
}

pub open spec fn has_suffix(s: Seq<char>, p: Seq<char>) -> bool {
    p.len() <= s.len() && s.subrange(s.len() - p.len(), s.len() as int) == p
}

pub open spec fn entry_kind(name: Seq<char>) -> EntryKind {
    if has_suffix(name, ".log"@) && has_prefix(name, "Server/AcsService.exe"@) {
        EntryKind::ServerLog
    } else if has_suffix(name, ".log"@) && has_prefix(name, "Client/AcsClient.exe"@) {
        EntryKind::ClientLog
    } else if has_suffix(name, "ServerConfigurationSheet.xml"@) {
        EntryKind::ConfigurationSheet
    } else {
        EntryKind::Other
    }
}

/// Whether `s` holds `p` from character `at` on.
fn holds_at(s: &str, p: &str, at: usize) -> (r: bool)
    requires
        at + p@.len() <= s@.len(),
    ensures
        r == (s@.subrange(at as int, at + p@.len()) == p@),
{
    let n = p.unicode_len();
    let total = s.unicode_len();
    let mut j: usize = 0;
    while j < n
        invariant
            n == p@.len(),
            total == s@.len(),
            at + n <= s@.len(),
            j <= n,
            forall|k: int| 0 <= k < j ==> s@[at + k] == p@[k],
        decreases n - j,
    {
        if s.get_char(at + j) != p.get_char(j) {
            assert(s@.subrange(at as int, at + n)[j as int] != p@[j as int]);
            return false;
        }
        j = j + 1;
    }
    assert(s@.subrange(at as int, at + n) =~= p@);
    true
}

fn starts_with(s: &str, p: &str) -> (r: bool)
    ensures
        r == has_prefix(s@, p@),
{
    let n = s.unicode_len();
    let m = p.unicode_len();
    if m > n {
        return false;
    }
    holds_at(s, p, 0)
}

fn ends_with(s: &str, p: &str) -> (r: bool)
    ensures
        r == has_suffix(s@, p@),
{
    let n = s.unicode_len();
    let m = p.unicode_len();
    if m > n {
        return false;
    }
    holds_at(s, p, n - m)
}

/// Tells an archive entry's kind by its name: `.log` files under
/// `Server/AcsService.exe` or `Client/AcsClient.exe`, and the file that ends
/// in `ServerConfigurationSheet.xml`.
pub fn classify_entry(name: &str) -> (r: EntryKind)
    ensures
        r == entry_kind(name@),
{
    let log = ends_with(name, ".log");
    if log && starts_with(name, "Server/AcsService.exe") {
        EntryKind::ServerLog
    } else if log && starts_with(name, "Client/AcsClient.exe") {
        EntryKind::ClientLog
    } else if ends_with(name, "ServerConfigurationSheet.xml") {
        EntryKind::ConfigurationSheet
    } else {
        EntryKind::Other
    }
}

/// The log files of an archive, sorted by where they came from.
pub struct ReportIndex {
    pub client_logs: Vec<LogEntry>,
    pub server_logs: Vec<LogEntry>,
}

impl ReportIndex {
    pub fn new() -> (r: ReportIndex)
        ensures
            r.client_logs@.len() == 0,
            r.server_logs@.len() == 0,
    {
        ReportIndex { client_logs: Vec::new(), server_logs: Vec::new() }
    }

    /// Files an archive entry: a server or client log joins its list; other
    /// entries are only classified.
    pub fn add_entry(&mut self, name: String, modified: ArchiveTime) -> (r: EntryKind)
        ensures
            r == entry_kind(name@),
            r == EntryKind::ServerLog ==> final(self).server_logs@.len() == old(self).server_logs@.len() + 1
                && final(self).server_logs@.last().name@ == name@
                && final(self).server_logs@.last().modified == modified
                && final(self).server_logs@.drop_last() == old(self).server_logs@
                && final(self).client_logs@ == old(self).client_logs@,
            r == EntryKind::ClientLog ==> final(self).client_logs@.len() == old(self).client_logs@.len() + 1
                && final(self).client_logs@.last().name@ == name@
                && final(self).client_logs@.last().modified == modified
                && final(self).client_logs@.drop_last() == old(self).client_logs@
                && final(self).server_logs@ == old(self).server_logs@,
            r != EntryKind::ServerLog && r != EntryKind::ClientLog ==> final(self).server_logs@
                == old(self).server_logs@ && final(self).client_logs@ == old(self).client_logs@,
    {
        let kind = classify_entry(name.as_str());
        match kind {
            EntryKind::ServerLog => {
                self.server_logs.push(LogEntry { name, modified });
                assert(self.server_logs@.drop_last() =~= old(self).server_logs@);
            },
            EntryKind::ClientLog => {
                self.client_logs.push(LogEntry { name, modified });
                assert(self.client_logs@.drop_last() =~= old(self).client_logs@);
            },
            _ => {},
        }
        kind
    }
}

} // verus!
