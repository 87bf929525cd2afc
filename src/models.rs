use sha2::Digest;
use vstd::prelude::*;
use vstd::utf8::encode_utf8;
use crate::encoding_fix::{fix_mojibake, settled};

verus! {

/// One scheduled occurrence as reported by the upstream feed.
#[derive(Debug, PartialEq, Eq)]
pub struct SAPEvent {
    pub title: String,
    pub start: i64,
    pub end: i64,
    pub description: String,
    pub room: String,
    pub instructor: String,
    pub remarks: String,
}

/// The mathematical value of an event: its text fields as character sequences.
pub ghost struct EventView {
    pub title: Seq<char>,
    pub start: i64,
    pub end: i64,
    pub description: Seq<char>,
    pub room: Seq<char>,
    pub instructor: Seq<char>,
    pub remarks: Seq<char>,
}

/// A difference between two snapshots for one identity.
#[derive(Debug, PartialEq, Eq)]
pub enum EventChange {
    Added(Box<SAPEvent>),
    Modified { previous: Box<SAPEvent>, current: Box<SAPEvent>, changes: Vec<String> },
    Deleted(Box<SAPEvent>),
}

pub ghost enum ChangeView {
    Added(EventView),
    Modified(EventView, EventView, Seq<Seq<char>>),
    Deleted(EventView),
}

impl View for EventChange {
    type V = ChangeView;

    open spec fn view(&self) -> ChangeView {
        match self {
            EventChange::Added(e) => ChangeView::Added(e@),
            EventChange::Modified { previous, current, changes } => ChangeView::Modified(
                previous@,
                current@,
                texts(changes@),
            ),
            EventChange::Deleted(e) => ChangeView::Deleted(e@),
        }
    }
}

/// The event with every text field passed through the mojibake repair.
pub open spec fn normalized(e: EventView) -> EventView {
    EventView {
        title: settled(e.title),
        start: e.start,
        end: e.end,
        description: settled(e.description),
        room: settled(e.room),
        instructor: settled(e.instructor),
        remarks: settled(e.remarks),
    }
}

impl View for SAPEvent {
    type V = EventView;

    open spec fn view(&self) -> EventView {
        EventView {
            title: self.title@,
            start: self.start,
            end: self.end,
            description: self.description@,
            room: self.room@,
            instructor: self.instructor@,
            remarks: self.remarks@,
        }
    }
}

/// `<label>: '<before>' -> '<after>'`
pub open spec fn text_change_line(label: Seq<char>, before: Seq<char>, after: Seq<char>) -> Seq<char> {
    label + ": '"@ + before + "' -> '"@ + after + "'"@
}

pub open spec fn line_if(cond: bool, line: Seq<char>) -> Seq<Seq<char>> {
    if cond {
        seq![line]
    } else {
        seq![]
    }
}

/// The descriptions of the fields in which `a` and `b` differ, in field order.
pub open spec fn compare_spec(a: EventView, b: EventView) -> Seq<Seq<char>> {
    line_if(a.title != b.title, text_change_line("Title"@, a.title, b.title))
        + line_if(a.start != b.start, "Start time changed"@)
        + line_if(a.end != b.end, "End time changed"@)
        + line_if(a.room != b.room, text_change_line("Room"@, a.room, b.room))
        + line_if(a.instructor != b.instructor, text_change_line("Instructor"@, a.instructor, b.instructor))
        + line_if(a.remarks != b.remarks, text_change_line("Remarks"@, a.remarks, b.remarks))
}

pub open spec fn texts(v: Seq<String>) -> Seq<Seq<char>> {
    v.map_values(|s: String| s@)
}

fn text_change(label: &str, before: &String, after: &String) -> (r: String)
    ensures
        r@ == text_change_line(label@, before@, after@),
{
    let mut r = String::from_str(label);
    r.append(": '");
    r.append(before.as_str());
    r.append("' -> '");
    r.append(after.as_str());
    r.append("'");
    r
}

impl Clone for SAPEvent {
    fn clone(&self) -> (r: SAPEvent)
        ensures
            r@ == self@,
    {
        SAPEvent {
            title: self.title.clone(),
            start: self.start,
            end: self.end,
            description: self.description.clone(),
            room: self.room.clone(),
            instructor: self.instructor.clone(),
            remarks: self.remarks.clone(),
        }
    }
}

pub open spec fn digit_char(d: int) -> char {
    (('0' as u8) + (d as u8)) as char
}

/// Decimal digits of a non-negative integer, without leading zeros.
pub open spec fn digits_of(n: nat) -> Seq<char>
    decreases n,
{
    if n < 10 {
        seq![digit_char(n as int)]
    } else {
        digits_of(n / 10).push(digit_char((n % 10) as int))
    }
}

/// Decimal text of an integer, with a leading `-` when negative.
pub open spec fn decimal_text(n: int) -> Seq<char> {
    if n < 0 {
        seq!['-'] + digits_of((-n) as nat)
    } else {
        digits_of(n as nat)
    }
}

pub open spec fn hex_digit(d: int) -> char {
    if d < 10 {
        (('0' as u8) + (d as u8)) as char
    } else {
        (('a' as u8) + ((d - 10) as u8)) as char
    }
}

/// Two lower-case hexadecimal digits per byte, high nibble first.
pub open spec fn hex_text(b: Seq<u8>) -> Seq<char>
    decreases b.len(),
{
    if b.len() == 0 {
        seq![]
    } else {
        hex_text(b.drop_last()) + seq![hex_digit(b.last() as int / 16), hex_digit(b.last() as int % 16)]
    }
}

/// The SHA-256 digest of `data`.
pub uninterp spec fn sha256_of(data: Seq<u8>) -> Seq<u8>;

/// The eight bytes of `n`, most significant first.
pub open spec fn be_bytes(n: u64) -> Seq<u8> {
    seq![
        (n >> 56u64) as u8,
        (n >> 48u64) as u8,
        (n >> 40u64) as u8,
        (n >> 32u64) as u8,
        (n >> 24u64) as u8,
        (n >> 16u64) as u8,
        (n >> 8u64) as u8,
        n as u8,
    ]
}

/// A signed instant moved into the unsigned range by adding 2^63.
pub open spec fn offset_time(t: i64) -> u64 {
    (t as int + 0x8000_0000_0000_0000) as u64
}

/// The bytes that identify an event: the title's UTF-8 length in eight bytes,
/// the title, start and end in eight bytes each, then the room. Each field can
/// be read back, so no two different field values share an encoding.
pub open spec fn identity_input(e: EventView) -> Seq<u8> {
    be_bytes(encode_utf8(e.title).len() as u64) + encode_utf8(e.title) + be_bytes(
        offset_time(e.start),
    ) + be_bytes(offset_time(e.end)) + encode_utf8(e.room)
}

/// The identity of an event: `sap-` and the first eight digest bytes in hex.
pub open spec fn uid_of(e: EventView) -> Seq<char> {
    "sap-"@ + hex_text(sha256_of(identity_input(e)).take(8))
}

/// Relies on `i64`'s `ToString`: the decimal form, `-` first when negative.
#[verifier::external_body]
pub(crate) fn i64_text(n: i64) -> (r: String)
    ensures
        r@ == decimal_text(n as int),
{
    n.to_string()
}

/// Relies on `sha2::Sha256::digest`: the 32-byte SHA-256 digest of the input.
#[verifier::external_body]
fn sha256_digest(data: &[u8]) -> (r: Vec<u8>)
    ensures
        r@ == sha256_of(data@),
        r@.len() == 32,
{
    sha2::Sha256::digest(data).to_vec()
}

/// Relies on `hex::encode`: two lower-case digits per byte, high nibble first.
#[verifier::external_body]
fn hex_encode(data: &[u8]) -> (r: String)
    ensures
        r@ == hex_text(data@),
{
    hex::encode(data)
}

fn push_be_bytes(out: &mut Vec<u8>, n: u64)
    ensures
        final(out)@ == old(out)@ + be_bytes(n),
{
    let ghost start = out@;
    out.push(#[verifier::truncate] ((n >> 56u64) as u8));
    out.push(#[verifier::truncate] ((n >> 48u64) as u8));
    out.push(#[verifier::truncate] ((n >> 40u64) as u8));
    out.push(#[verifier::truncate] ((n >> 32u64) as u8));
    out.push(#[verifier::truncate] ((n >> 24u64) as u8));
    out.push(#[verifier::truncate] ((n >> 16u64) as u8));
    out.push(#[verifier::truncate] ((n >> 8u64) as u8));
    out.push(#[verifier::truncate] (n as u8));
    assert(out@ =~= start + be_bytes(n));
}

fn offset_time_of(t: i64) -> (r: u64)
    ensures
        r == offset_time(t),
{
    if t >= 0 {
        t as u64 + 0x8000_0000_0000_0000u64
    } else {
        ((t + 0x7fff_ffff_ffff_ffff) + 1) as u64
    }
}

proof fn lemma_hex_text_len(b: Seq<u8>)
    ensures
        hex_text(b).len() == 2 * b.len(),
    decreases b.len(),
{
    if b.len() > 0 {
        lemma_hex_text_len(b.drop_last());
    }
}

fn append_bytes(out: &mut Vec<u8>, more: &[u8])
    ensures
        final(out)@ == old(out)@ + more@,
{
    let ghost start = out@;
    let mut i: usize = 0;
    while i < more.len()
        invariant
            i <= more@.len(),
            out@ == start + more@.take(i as int),
        decreases more@.len() - i,
    {
        out.push(more[i]);
        i += 1;
        assert(out@ =~= start + more@.take(i as int));
    }
    assert(more@.take(i as int) =~= more@);
}

impl SAPEvent {
    /// Repairs double-encoded text in every text field.
    pub fn fix_encoding(self) -> (r: SAPEvent)
        ensures
            r@ == normalized(self@),
    {
        let mut e = self;
        e.title = fix_mojibake(e.title.as_str());
        e.description = fix_mojibake(e.description.as_str());
        e.room = fix_mojibake(e.room.as_str());
        e.instructor = fix_mojibake(e.instructor.as_str());
        e.remarks = fix_mojibake(e.remarks.as_str());
        e
    }

    /// The stable identity of this event, derived from title, start, end and
    /// room only.
    pub fn generate_uid(&self) -> (r: String)
        ensures
            r@ == uid_of(self@),
            r@.len() == 20,
    {
        let mut input: Vec<u8> = Vec::new();
        let title = self.title.as_str().as_bytes();
        push_be_bytes(&mut input, title.len() as u64);
        append_bytes(&mut input, title);
        push_be_bytes(&mut input, offset_time_of(self.start));
        push_be_bytes(&mut input, offset_time_of(self.end));
        append_bytes(&mut input, self.room.as_str().as_bytes());
        assert(input@ =~= identity_input(self@));
        let digest = sha256_digest(input.as_slice());
        let mut head: Vec<u8> = Vec::new();
        let mut i: usize = 0;
        while i < 8
            invariant
                i <= 8,
                digest@.len() == 32,
                head@ == digest@.take(i as int),
            decreases 8 - i,
        {
            head.push(digest[i]);
            i += 1;
            assert(head@ =~= digest@.take(i as int));
        }
        let mut r = String::from_str("sap-");
        let hex = hex_encode(head.as_slice());
        r.append(hex.as_str());
        proof {
            lemma_hex_text_len(head@);
            reveal_strlit("sap-");
        }
        r
    }

    /// Describes each field in which `other` differs from `self`.
    pub fn compare(&self, other: &SAPEvent) -> (r: Vec<String>)
        ensures
            texts(r@) == compare_spec(self@, other@),
    {
        let mut changes: Vec<String> = Vec::new();
        if self.title != other.title {
            changes.push(text_change("Title", &self.title, &other.title));
        }
        if self.start != other.start {
            changes.push(String::from_str("Start time changed"));
        }
        if self.end != other.end {
            changes.push(String::from_str("End time changed"));
        }
        if self.room != other.room {
            changes.push(text_change("Room", &self.room, &other.room));
        }
        if self.instructor != other.instructor {
            changes.push(text_change("Instructor", &self.instructor, &other.instructor));
        }
        if self.remarks != other.remarks {
            changes.push(text_change("Remarks", &self.remarks, &other.remarks));
        }
        proof {
            let a = self@;
            let b = other@;
            assert(texts(changes@) =~= compare_spec(a, b));
        }
        changes
    }
}

} // verus!
