//! Log records of bounded length.
use vstd::prelude::*;
use crate::text::{lemma_utf8_concat, texts};
use vstd::utf8::{encode_utf8, is_char_boundary};
use vstd::string::StringExecFns;

verus! {

/// Most bytes of a log record.
pub const MAX_LOG_RECORD_BYTES: usize = 2048;

/// Most records that are kept in memory.
pub const LOG_RING_CAPACITY: usize = 600;

/// What a record that was cut short ends with.
pub const LOG_TRUNCATION_SUFFIX: &'static str = "...[truncated]";

/// The last position up to `n` at which a text may be cut.
pub open spec fn boundary_up_to(bytes: Seq<u8>, n: int) -> int
    decreases n,
{
    if n <= 0 || is_char_boundary(bytes, n) {
        n
    } else {
        boundary_up_to(bytes, n - 1)
    }
}

/// The longest beginning of a text that has at most `max` bytes and cuts no character.
pub open spec fn prefix_bytes(bytes: Seq<u8>, max: nat) -> Seq<u8> {
    bytes.take(
        boundary_up_to(
            bytes,
            if bytes.len() < max {
                bytes.len() as int
            } else {
                max as int
            },
        ),
    )
}

/// The position is in range and a place to cut.
proof fn lemma_boundary(s: Seq<char>, n: int)
    requires
        0 <= n <= encode_utf8(s).len(),
    ensures
        0 <= boundary_up_to(encode_utf8(s), n) <= n,
        is_char_boundary(encode_utf8(s), boundary_up_to(encode_utf8(s), n)),
        n == encode_utf8(s).len() ==> boundary_up_to(encode_utf8(s), n) == n,
    decreases n,
{
    vstd::utf8::encode_utf8_valid_utf8(s);
    vstd::utf8::is_char_boundary_start_end_of_seq(encode_utf8(s));
    if n > 0 && !is_char_boundary(encode_utf8(s), n) {
        lemma_boundary(s, n - 1);
    }
}

/// The longest beginning of a text that has at most `max_bytes` bytes and cuts no
/// character.
pub fn utf8_prefix(value: &str, max_bytes: usize) -> (r: &str)
    ensures
        encode_utf8(r@) == prefix_bytes(encode_utf8(value@), max_bytes as nat),
        encode_utf8(r@).len() <= max_bytes,
{
    let len: usize = value.as_bytes().len();
    let start: usize = if len < max_bytes {
        len
    } else {
        max_bytes
    };
    let mut end: usize = start;
    let ghost bytes = encode_utf8(value@);
    while end > 0 && !value.is_char_boundary(end)
        invariant
            end <= start <= bytes.len(),
            bytes == encode_utf8(value@),
            boundary_up_to(bytes, start as int) == boundary_up_to(bytes, end as int),
        decreases end,
    {
        end = end - 1;
    }
    proof {
        lemma_boundary(value@, start as int);
        if end == 0 {
            vstd::utf8::encode_utf8_valid_utf8(value@);
            vstd::utf8::is_char_boundary_start_end_of_seq(bytes);
        }
    }
    let (head, _tail) = value.split_at(end);
    proof {
        assert(bytes.subrange(0, end as int) =~= bytes.take(end as int));
    }
    head
}

/// What is left of a limit.
pub open spec fn room(limit: nat, used: nat) -> nat {
    if used < limit {
        (limit - used) as nat
    } else {
        0
    }
}

/// The bytes of a record after as much of `value` was appended as fits.
pub open spec fn appended(target: Seq<u8>, value: Seq<u8>) -> Seq<u8> {
    target + prefix_bytes(value, room(MAX_LOG_RECORD_BYTES as nat, target.len()))
}

/// Appends as much of a text as fits into a record.
pub fn append_utf8_prefix(target: &mut String, value: &str)
    requires
        encode_utf8(old(target)@).len() <= MAX_LOG_RECORD_BYTES,
    ensures
        encode_utf8(final(target)@) == appended(encode_utf8(old(target)@), encode_utf8(value@)),
        encode_utf8(final(target)@).len() <= MAX_LOG_RECORD_BYTES,
{
    let used: usize = target.as_str().as_bytes().len();
    let remaining: usize = MAX_LOG_RECORD_BYTES - used;
    let part = utf8_prefix(value, remaining);
    proof {
        lemma_utf8_concat(target@, part@);
    }
    target.append(part);
}

/// The bytes of the record's head: time and level in brackets.
pub open spec fn head_bytes(time: Seq<char>, level: Seq<char>) -> Seq<u8> {
    appended(
        appended(
            appended(
                appended(
                    appended(Seq::<u8>::empty(), encode_utf8("["@)),
                    encode_utf8(time),
                ),
                encode_utf8("] ["@),
            ),
            encode_utf8(level),
        ),
        encode_utf8("] "@),
    )
}

/// The bytes of a log record: its head and its message. A message that does not fit is
/// cut at a character and marked, where there is room for the mark.
pub open spec fn record_bytes(time: Seq<char>, level: Seq<char>, msg: Seq<char>) -> Seq<u8> {
    let head = head_bytes(time, level);
    let left = room(MAX_LOG_RECORD_BYTES as nat, head.len());
    let mark = encode_utf8("...[truncated]"@);
    let body = encode_utf8(msg);
    if body.len() <= left {
        head + body
    } else if left > mark.len() {
        head + prefix_bytes(body, (left - mark.len()) as nat) + mark
    } else {
        head + prefix_bytes(body, left)
    }
}

/// Formats a log record of bounded length.
pub fn format_log_record(time_str: &str, level: &str, msg: &str) -> (r: String)
    ensures
        encode_utf8(r@) == record_bytes(time_str@, level@, msg@),
        encode_utf8(r@).len() <= MAX_LOG_RECORD_BYTES,
{
    let mut out = String::new();
    proof {
        assert(encode_utf8(out@) =~= Seq::<u8>::empty());
    }
    append_utf8_prefix(&mut out, "[");
    append_utf8_prefix(&mut out, time_str);
    append_utf8_prefix(&mut out, "] [");
    append_utf8_prefix(&mut out, level);
    append_utf8_prefix(&mut out, "] ");
    let used: usize = out.as_str().as_bytes().len();
    let remaining: usize = MAX_LOG_RECORD_BYTES - used;
    let mark: &'static str = "...[truncated]";
    let mark_len: usize = mark.as_bytes().len();
    let ghost head = out@;
    if msg.as_bytes().len() <= remaining {
        out.append(msg);
        proof {
            lemma_utf8_concat(head, msg@);
        }
    } else if remaining > mark_len {
        let part = utf8_prefix(msg, remaining - mark_len);
        out.append(part);
        out.append(mark);
        proof {
            lemma_utf8_concat(head, part@);
            lemma_utf8_concat(head + part@, mark@);
        }
    } else {
        let part = utf8_prefix(msg, remaining);
        out.append(part);
        proof {
            lemma_utf8_concat(head, part@);
        }
    }
    out
}

/// The newest records in memory.
pub struct LogRing {
    records: Vec<String>,
}

impl LogRing {
    /// The records, oldest first.
    pub closed spec fn view(&self) -> Seq<Seq<char>> {
        texts(self.records@)
    }

    /// No more records than are kept.
    pub open spec fn wf(&self) -> bool {
        self@.len() <= LOG_RING_CAPACITY
    }

    /// No records.
    pub fn new() -> (r: Self)
        ensures
            r.wf(),
            r@.len() == 0,
    {
        LogRing { records: Vec::new() }
    }

    /// Adds a record; a full ring gives up its oldest.
    pub fn push(&mut self, record: String)
        requires
            old(self).wf(),
        ensures
            final(self).wf(),
            final(self)@ == ring_pushed(old(self)@, record@),
    {
        let ghost before = self.records@;
        self.records.push(record);
        if self.records.len() > LOG_RING_CAPACITY {
            let _oldest = self.records.remove(0);
            proof {
                assert(texts(self.records@) =~= texts(before).skip(1).push(record@));
            }
        } else {
            proof {
                assert(texts(self.records@) =~= texts(before).push(record@));
            }
        }
    }

    /// Number of records.
    pub fn len(&self) -> (r: usize)
        ensures
            r == self@.len(),
    {
        self.records.len()
    }
}

/// Every record is bounded, and a message that fits beside its head is kept whole.
pub proof fn law_record_keeps_fitting_message(time: Seq<char>, level: Seq<char>, msg: Seq<char>)
    requires
        head_bytes(time, level).len() + encode_utf8(msg).len() <= MAX_LOG_RECORD_BYTES,
    ensures
        record_bytes(time, level, msg) == head_bytes(time, level) + encode_utf8(msg),
{
}

/// Bytes that the log file may have.
pub const LOG_FILE_LIMIT: u64 = 8388608;

/// Whether the log file is started anew before the next record.
pub fn log_file_is_full(bytes: u64) -> (r: bool)
    ensures
        r == (bytes > LOG_FILE_LIMIT),
{
    bytes > LOG_FILE_LIMIT
}

/// A record that fits reads: the time in brackets, the level in brackets, the message.
pub proof fn law_record_layout(time: Seq<char>, level: Seq<char>, msg: Seq<char>)
    requires
        encode_utf8("["@ + time + "] ["@ + level + "] "@ + msg).len() <= 2048,
    ensures
        record_bytes(time, level, msg) == encode_utf8(
            "["@ + time + "] ["@ + level + "] "@ + msg,
        ),
{
    let a = "["@;
    lemma_utf8_concat(a, time);
    lemma_utf8_concat(a + time, "] ["@);
    lemma_utf8_concat(a + time + "] ["@, level);
    lemma_utf8_concat(a + time + "] ["@ + level, "] "@);
    lemma_utf8_concat(a + time + "] ["@ + level + "] "@, msg);
    let e = Seq::<u8>::empty();
    lemma_fitting_prefix(a, 2048);
    assert(e + encode_utf8(a) =~= encode_utf8(a));
    let s1 = encode_utf8(a);
    lemma_fitting_prefix(time, room(2048, s1.len()));
    let s2 = s1 + encode_utf8(time);
    lemma_fitting_prefix("] ["@, room(2048, s2.len()));
    let s3 = s2 + encode_utf8("] ["@);
    lemma_fitting_prefix(level, room(2048, s3.len()));
    let s4 = s3 + encode_utf8(level);
    lemma_fitting_prefix("] "@, room(2048, s4.len()));
}

proof fn lemma_fitting_prefix(s: Seq<char>, max: nat)
    requires
        encode_utf8(s).len() <= max,
    ensures
        prefix_bytes(encode_utf8(s), max) == encode_utf8(s),
{
    let b = encode_utf8(s);
    lemma_boundary(s, b.len() as int);
    assert(b.take(b.len() as int) =~= b);
}

/// A message that is cut short says so, and the record still has at most 2048 bytes.
pub proof fn law_cut_records_say_so(time: Seq<char>, level: Seq<char>, msg: Seq<char>)
    requires
        ({
            let head = head_bytes(time, level);
            let mark = encode_utf8("...[truncated]"@);
            head.len() + encode_utf8(msg).len() > 2048 && head.len() + mark.len() < 2048
        }),
    ensures
        ({
            let record = record_bytes(time, level, msg);
            let head = head_bytes(time, level);
            let mark = encode_utf8("...[truncated]"@);
            &&& record.len() <= 2048
            &&& record.take(head.len() as int) == head
            &&& record.skip(record.len() - mark.len()) == mark
            &&& record.subrange(head.len() as int, record.len() - mark.len()).is_prefix_of(
                encode_utf8(msg),
            )
        }),
{
    let record = record_bytes(time, level, msg);
    let head = head_bytes(time, level);
    let mark = encode_utf8("...[truncated]"@);
    let body = encode_utf8(msg);
    let left = (2048 - head.len()) as nat;
    let most = (left - mark.len()) as nat;
    lemma_boundary(msg, most as int);
    let kept = prefix_bytes(body, most);
    assert(kept.len() <= most);
    assert(record =~= head + kept + mark);
    assert(record.take(head.len() as int) =~= head);
    assert(record.skip(record.len() - mark.len()) =~= mark);
    assert(record.subrange(head.len() as int, record.len() - mark.len()) =~= kept);
}

/// A shortened text has at most `max` bytes, is the beginning of the text, cuts no character,
/// and reaches every cut that would have done.
pub proof fn law_prefix_is_the_longest(s: Seq<char>, max: nat, cut: int)
    ensures
        prefix_bytes(encode_utf8(s), max).len() <= max,
        prefix_bytes(encode_utf8(s), max).is_prefix_of(encode_utf8(s)),
        is_char_boundary(encode_utf8(s), prefix_bytes(encode_utf8(s), max).len() as int),
        encode_utf8(s).len() <= max ==> prefix_bytes(encode_utf8(s), max) == encode_utf8(s),
        0 <= cut <= max && cut <= encode_utf8(s).len() && is_char_boundary(encode_utf8(s), cut)
            ==> cut <= prefix_bytes(encode_utf8(s), max).len(),
{
    let bytes = encode_utf8(s);
    let n = if bytes.len() < max {
        bytes.len() as int
    } else {
        max as int
    };
    lemma_boundary(s, n);
    if 0 <= cut <= n && is_char_boundary(bytes, cut) {
        lemma_boundary_reaches(bytes, n, cut);
    }
    if n == bytes.len() {
        assert(prefix_bytes(bytes, max) =~= bytes);
    }
}

proof fn lemma_boundary_reaches(bytes: Seq<u8>, n: int, cut: int)
    requires
        0 <= cut <= n,
        is_char_boundary(bytes, cut),
    ensures
        cut <= boundary_up_to(bytes, n),
    decreases n,
{
    if n > cut && !is_char_boundary(bytes, n) {
        lemma_boundary_reaches(bytes, n - 1, cut);
    }
}


/// The records of a ring after one more.
pub open spec fn ring_pushed(records: Seq<Seq<char>>, record: Seq<char>) -> Seq<Seq<char>> {
    if records.len() < LOG_RING_CAPACITY {
        records.push(record)
    } else {
        records.skip(1).push(record)
    }
}

/// The newest record stands last; a ring of 600 records gives up its oldest for it, and
/// everything else keeps its order.
pub proof fn law_ring_keeps_the_newest(records: Seq<Seq<char>>, record: Seq<char>, i: int)
    requires
        records.len() <= 600,
    ensures
        ring_pushed(records, record).last() == record,
        ring_pushed(records, record).len() == if records.len() < 600 {
            records.len() + 1
        } else {
            600
        },
        records.len() < 600 && 0 <= i < records.len() ==> ring_pushed(records, record)[i]
            == records[i],
        records.len() == 600 && 0 < i < 600 ==> ring_pushed(records, record)[i - 1] == records[i],
{
}

/// No record has more than 2048 bytes, whatever it is made of.
pub proof fn law_records_are_bounded(time: Seq<char>, level: Seq<char>, msg: Seq<char>)
    requires
        head_bytes(time, level).len() <= 2048,
    ensures
        record_bytes(time, level, msg).len() <= 2048,
        record_bytes(time, level, msg).take(head_bytes(time, level).len() as int) == head_bytes(
            time,
            level,
        ),
        head_bytes(time, level).len() == 2048 ==> record_bytes(time, level, msg) == head_bytes(
            time,
            level,
        ),
{
    let head = head_bytes(time, level);
    let left = (2048 - head.len()) as nat;
    let mark = encode_utf8("...[truncated]"@);
    law_prefix_is_the_longest(msg, left, 0);
    if left > mark.len() {
        law_prefix_is_the_longest(msg, (left - mark.len()) as nat, 0);
    }
    let r = record_bytes(time, level, msg);
    assert(r.take(head.len() as int) =~= head);
    if head.len() == 2048 {
        assert(r =~= head);
    }
}

} // verus!
