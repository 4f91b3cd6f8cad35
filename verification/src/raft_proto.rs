//! The messages exchanged between nodes: log entries, vote and append requests.

use vstd::prelude::*;

use vstd::utf8::decode_utf8;
use vstd::utf8::valid_utf8;

use crate::trusted::string_from_utf8;
use crate::NodeId;

verus! {

/// What a log entry asks the state machine to do.
#[derive(Debug, Clone, Copy, PartialEq, Eq, Structural)]
pub enum CommandType {
    Empty,
    Put,
    Delete,
}

/// The wire number of each command type.
pub open spec fn command_type_number(c: CommandType) -> i32 {
    match c {
        CommandType::Empty => 0,
        CommandType::Put => 1,
        CommandType::Delete => 2,
    }
}

/// The name of each command type, as requests spell it.
pub open spec fn command_type_name(c: CommandType) -> Seq<char> {
    match c {
        CommandType::Empty => seq!['E', 'M', 'P', 'T', 'Y'],
        CommandType::Put => seq!['P', 'U', 'T'],
        CommandType::Delete => seq!['D', 'E', 'L', 'E', 'T', 'E'],
    }
}

/// The command type that a name denotes, if any.
pub open spec fn command_type_named(name: Seq<char>) -> Option<CommandType> {
    if name == command_type_name(CommandType::Empty) {
        Some(CommandType::Empty)
    } else if name == command_type_name(CommandType::Put) {
        Some(CommandType::Put)
    } else if name == command_type_name(CommandType::Delete) {
        Some(CommandType::Delete)
    } else {
        None
    }
}

/// Whether two strings hold the same characters.
pub fn str_equals(a: &str, b: &str) -> (res: bool)
    ensures
        res == (a@ == b@),
{
    let n = a.unicode_len();
    let m = b.unicode_len();
    if n != m {
        return false;
    }
    let mut i: usize = 0;
    while i < n
        invariant
            n == a@.len(),
            m == b@.len(),
            n == m,
            i <= n,
            forall|j: int| 0 <= j < i ==> a@[j] == b@[j],
        decreases n - i,
    {
        if a.get_char(i) != b.get_char(i) {
            return false;
        }
        i = i + 1;
    }
    assert(a@ =~= b@);
    true
}

impl CommandType {
    /// The number that stands for this command type in an entry.
    pub fn as_i32(&self) -> (n: i32)
        ensures
            n == command_type_number(*self),
    {
        match self {
            CommandType::Empty => 0,
            CommandType::Put => 1,
            CommandType::Delete => 2,
        }
    }

    /// The command type spelled by `value`, if any.
    pub fn from_str_name(value: &str) -> (res: Option<CommandType>)
        ensures
            res == command_type_named(value@),
    {
        proof {
            reveal_strlit("EMPTY");
            reveal_strlit("PUT");
            reveal_strlit("DELETE");
            assert("EMPTY"@ =~= command_type_name(CommandType::Empty));
            assert("PUT"@ =~= command_type_name(CommandType::Put));
            assert("DELETE"@ =~= command_type_name(CommandType::Delete));
        }
        if str_equals(value, "EMPTY") {
            Some(CommandType::Empty)
        } else if str_equals(value, "PUT") {
            Some(CommandType::Put)
        } else if str_equals(value, "DELETE") {
            Some(CommandType::Delete)
        } else {
            None
        }
    }
}


/// The value of an entry, as specifications see it.
pub struct EntryView {
    pub index: u32,
    pub term: u32,
    pub command_type: i32,
    pub key: Seq<char>,
    pub value: Seq<u8>,
}

/// One entry of the replicated log.
#[derive(Debug)]
pub struct Entry {
    pub index: u32,
    pub term: u32,
    pub command_type: i32,
    pub key: String,
    pub value: Vec<u8>,
}

impl View for Entry {
    type V = EntryView;

    open spec fn view(&self) -> EntryView {
        EntryView {
            index: self.index,
            term: self.term,
            command_type: self.command_type,
            key: self.key@,
            value: self.value@,
        }
    }
}

/// The views of a sequence of entries.
pub open spec fn entries_view(s: Seq<Entry>) -> Seq<EntryView> {
    s.map_values(|e: Entry| e@)
}

/// The entry that every log starts with.
pub open spec fn empty_entry_view() -> EntryView {
    EntryView {
        index: 0,
        term: 0,
        command_type: command_type_number(CommandType::Empty),
        key: Seq::empty(),
        value: Seq::empty(),
    }
}

/// The text of an entry's value: its bytes decoded as UTF-8 when they are
/// valid, else the marker `serialize_error`.
pub open spec fn value_text_of(value: Seq<u8>) -> Seq<char> {
    if valid_utf8(value) {
        decode_utf8(value)
    } else {
        "serialize_error"@
    }
}

/// The character of a decimal digit.
pub open spec fn digit_char(d: nat) -> char {
    if d == 0 { '0' } else if d == 1 { '1' } else if d == 2 { '2' } else if d == 3 { '3' } else if d == 4 {
        '4'
    } else if d == 5 { '5' } else if d == 6 { '6' } else if d == 7 { '7' } else if d == 8 { '8' } else { '9' }
}

/// A number written in decimal, without leading zeros.
pub open spec fn decimal(n: nat) -> Seq<char>
    decreases n,
{
    if n < 10 {
        seq![digit_char(n)]
    } else {
        decimal(n / 10) + seq![digit_char(n % 10)]
    }
}

/// A signed number written in decimal, with a minus sign when negative.
pub open spec fn signed_decimal(v: int) -> Seq<char> {
    if v < 0 {
        seq!['-'] + decimal((-v) as nat)
    } else {
        decimal(v as nat)
    }
}

/// The one-line description of an entry, its value shown as text.
pub open spec fn entry_description(e: EntryView) -> Seq<char> {
    "Entry(index:"@ + decimal(e.index as nat) + ",term:"@ + decimal(e.term as nat) + ",command_type:"@
        + signed_decimal(e.command_type as int) + ",key:"@ + e.key + ",value:"@ + value_text_of(e.value)
        + ")"@
}

/// The text of one decimal digit.
fn digit_text(d: u32) -> (s: &'static str)
    requires
        d < 10,
    ensures
        s@ == seq![digit_char(d as nat)],
{
    proof {
        reveal_strlit("0");
        reveal_strlit("1");
        reveal_strlit("2");
        reveal_strlit("3");
        reveal_strlit("4");
        reveal_strlit("5");
        reveal_strlit("6");
        reveal_strlit("7");
        reveal_strlit("8");
        reveal_strlit("9");
    }
    let s = if d == 0 {
        "0"
    } else if d == 1 {
        "1"
    } else if d == 2 {
        "2"
    } else if d == 3 {
        "3"
    } else if d == 4 {
        "4"
    } else if d == 5 {
        "5"
    } else if d == 6 {
        "6"
    } else if d == 7 {
        "7"
    } else if d == 8 {
        "8"
    } else {
        "9"
    };
    assert(s@ =~= seq![digit_char(d as nat)]);
    s
}

/// Append `n` written in decimal to `out`.
fn append_decimal(out: &mut String, n: u32)
    ensures
        final(out)@ == old(out)@ + decimal(n as nat),
    decreases n,
{
    if n >= 10 {
        append_decimal(out, n / 10);
    }
    out.append(digit_text(n % 10));
    assert(out@ =~= old(out)@ + decimal(n as nat));
}

/// Append `v` written in decimal, with its sign, to `out`.
fn append_signed_decimal(out: &mut String, v: i32)
    ensures
        final(out)@ == old(out)@ + signed_decimal(v as int),
{
    if v < 0 {
        out.append("-");
        proof {
            reveal_strlit("-");
        }
        let magnitude: u32 = if v == i32::MIN {
            2147483648u32
        } else {
            (-v) as u32
        };
        append_decimal(out, magnitude);
        assert(out@ =~= old(out)@ + signed_decimal(v as int));
    } else {
        append_decimal(out, v as u32);
    }
}

impl Entry {
    /// The entry that every log starts with: index and term 0, no command.
    pub fn empty() -> (e: Entry)
        ensures
            e@ == empty_entry_view(),
    {
        Entry {
            index: 0,
            term: 0,
            command_type: CommandType::Empty.as_i32(),
            key: String::new(),
            value: Vec::new(),
        }
    }

    /// The value of an entry as text: its bytes decoded as UTF-8 when they are
    /// valid, else a marker.
    pub fn value_text(&self) -> (text: String)
        ensures
            text@ == value_text_of(self.value@),
    {
        match string_from_utf8(self.value.clone()) {
            Some(text) => text,
            None => String::from_str("serialize_error"),
        }
    }

    /// A one-line description of this entry, its value shown as text:
    /// `Entry(index:..,term:..,command_type:..,key:..,value:..)`.
    pub fn describe(&self) -> (text: String)
        ensures
            text@ == entry_description(self@),
    {
        let mut out = String::from_str("Entry(index:");
        append_decimal(&mut out, self.index);
        out.append(",term:");
        append_decimal(&mut out, self.term);
        out.append(",command_type:");
        append_signed_decimal(&mut out, self.command_type);
        out.append(",key:");
        out.append(self.key.as_str());
        out.append(",value:");
        let value = self.value_text();
        out.append(value.as_str());
        out.append(")");
        out
    }

    /// A copy of this entry.
    pub fn duplicate(&self) -> (e: Entry)
        ensures
            e@ == self@,
    {
        let value = self.value.clone();
        assert(value@ =~= self.value@);
        Entry {
            index: self.index,
            term: self.term,
            command_type: self.command_type,
            key: self.key.clone(),
            value,
        }
    }
}

/// Copies of the entries of `s` from position `from` on.
pub fn copy_entries_from(s: &Vec<Entry>, from: usize) -> (res: Vec<Entry>)
    requires
        from <= s.len(),
    ensures
        entries_view(res@) == entries_view(s@).subrange(from as int, s.len() as int),
{
    let mut res: Vec<Entry> = Vec::new();
    let mut i = from;
    while i < s.len()
        invariant
            from <= i <= s.len(),
            entries_view(res@) == entries_view(s@).subrange(from as int, i as int),
        decreases s.len() - i,
    {
        let e = s[i].duplicate();
        let ghost before = res@;
        res.push(e);
        assert(res@ == before.push(e));
        assert(entries_view(res@) =~= entries_view(before).push(e@));
        assert(entries_view(res@) =~= entries_view(s@).subrange(from as int, i + 1));
        i = i + 1;
    }
    res
}

/// A leader's request that a follower append entries to its log.
#[derive(Debug)]
pub struct AppendEntriesArgs {
    pub term: u32,
    pub leader_id: NodeId,
    pub prev_log_index: u32,
    pub prev_log_term: u32,
    pub entries: Vec<Entry>,
    pub leader_commit: u32,
}

/// An append request, as specifications see it.
pub struct AppendEntriesArgsView {
    pub term: u32,
    pub leader_id: NodeId,
    pub prev_log_index: u32,
    pub prev_log_term: u32,
    pub entries: Seq<EntryView>,
    pub leader_commit: u32,
}

impl View for AppendEntriesArgs {
    type V = AppendEntriesArgsView;

    open spec fn view(&self) -> AppendEntriesArgsView {
        AppendEntriesArgsView {
            term: self.term,
            leader_id: self.leader_id,
            prev_log_index: self.prev_log_index,
            prev_log_term: self.prev_log_term,
            entries: entries_view(self.entries@),
            leader_commit: self.leader_commit,
        }
    }
}

/// A follower's answer to an append request.
#[derive(Debug, Clone, Copy, PartialEq, Eq, Structural)]
pub struct AppendEntriesReply {
    pub term: u32,
    pub success: bool,
}

/// A candidate's request for a vote.
#[derive(Debug, Clone, Copy, PartialEq, Eq, Structural)]
pub struct RequestVoteArgs {
    pub term: u32,
    pub candidate_id: NodeId,
    pub last_log_index: u32,
    pub last_log_term: u32,
}

/// A node's answer to a vote request.
#[derive(Debug, Clone, Copy, PartialEq, Eq, Structural)]
pub struct RequestVoteReply {
    pub term: u32,
    pub vote_granted: bool,
}

} // verus!
