use crate::models::{ChangeView, EventChange, EventView, SAPEvent};
use vstd::prelude::*;

verus! {

/// Most embeds that one webhook message carries.
pub const BATCH_SIZE: usize = 10;

pub const COLOR_ADDED: u32 = 3066993;

pub const COLOR_MODIFIED: u32 = 15105570;

pub const COLOR_DELETED: u32 = 15158332;

/// One labelled value shown in a notification.
#[derive(Debug, PartialEq, Eq)]
pub struct EmbedField {
    pub name: String,
    pub value: String,
    pub inline: bool,
}

/// The notification summary of one change record.
#[derive(Debug, PartialEq, Eq)]
pub struct Embed {
    pub title: String,
    pub color: u32,
    pub description: Option<String>,
    pub fields: Vec<EmbedField>,
}

pub ghost struct FieldView {
    pub name: Seq<char>,
    pub value: Seq<char>,
    pub inline: bool,
}

pub ghost struct EmbedView {
    pub title: Seq<char>,
    pub color: u32,
    pub description: Option<Seq<char>>,
    pub fields: Seq<FieldView>,
}

impl View for EmbedField {
    type V = FieldView;

    open spec fn view(&self) -> FieldView {
        FieldView { name: self.name@, value: self.value@, inline: self.inline }
    }
}

impl View for Embed {
    type V = EmbedView;

    open spec fn view(&self) -> EmbedView {
        EmbedView {
            title: self.title@,
            color: self.color,
            description: match self.description {
                Some(d) => Some(d@),
                None => None,
            },
            fields: self.fields@.map_values(|f: EmbedField| f@),
        }
    }
}

/// A UTC instant given in seconds since the epoch, as `YYYY-MM-DD HH:MM UTC`;
/// an instant out of the representable range reads as the epoch.
pub uninterp spec fn utc_minute_text(ts: int) -> Seq<char>;

/// Relies on chrono's `DateTime::<Utc>::from_timestamp` (the epoch where it
/// gives `None`) and on `format` with the pattern `%Y-%m-%d %H:%M UTC`.
#[verifier::external_body]
fn utc_minute(ts: i64) -> (r: String)
    ensures
        r@ == utc_minute_text(ts as int),
{
    chrono::DateTime::<chrono::Utc>::from_timestamp(ts, 0).unwrap_or_default().format(
        "%Y-%m-%d %H:%M UTC",
    ).to_string()
}

/// The lines of `lines` separated by newlines.
pub open spec fn joined_lines(lines: Seq<Seq<char>>) -> Seq<char>
    decreases lines.len(),
{
    if lines.len() == 0 {
        seq![]
    } else if lines.len() == 1 {
        lines[0]
    } else {
        joined_lines(lines.drop_last()) + "\n"@ + lines.last()
    }
}

pub open spec fn field_view(name: Seq<char>, value: Seq<char>, inline: bool) -> FieldView {
    FieldView { name, value, inline }
}

/// The notification summary of a change record.
pub open spec fn embed_of(c: ChangeView) -> EmbedView {
    match c {
        ChangeView::Added(e) => EmbedView {
            title: "✅ New Event: "@ + e.title,
            color: COLOR_ADDED,
            description: None,
            fields: seq![
                field_view("Room"@, e.room, true),
                field_view("Instructor"@, e.instructor, true),
                field_view("Start"@, utc_minute_text(e.start as int), false),
                field_view("End"@, utc_minute_text(e.end as int), false),
            ],
        },
        ChangeView::Modified(_, e, lines) => EmbedView {
            title: "🔄 Event Modified: "@ + e.title,
            color: COLOR_MODIFIED,
            description: Some("**Changes:**\n"@ + joined_lines(lines)),
            fields: seq![
                field_view("Room"@, e.room, true),
                field_view("Date"@, utc_minute_text(e.start as int), true),
            ],
        },
        ChangeView::Deleted(e) => EmbedView {
            title: "❌ Event Deleted: "@ + e.title,
            color: COLOR_DELETED,
            description: None,
            fields: seq![
                field_view("Room"@, e.room, true),
                field_view("Date"@, utc_minute_text(e.start as int), true),
            ],
        },
    }
}

fn field(name: &str, value: String, inline: bool) -> (r: EmbedField)
    ensures
        r@ == field_view(name@, value@, inline),
{
    EmbedField { name: String::from_str(name), value, inline }
}

fn prefixed(prefix: &str, text: &String) -> (r: String)
    ensures
        r@ == prefix@ + text@,
{
    let mut r = String::from_str(prefix);
    r.append(text.as_str());
    r
}

fn join_lines(lines: &Vec<String>) -> (r: String)
    ensures
        r@ == joined_lines(lines@.map_values(|s: String| s@)),
{
    let ghost ls = lines@.map_values(|s: String| s@);
    let mut r = String::new();
    let mut i: usize = 0;
    while i < lines.len()
        invariant
            i <= lines@.len(),
            ls == lines@.map_values(|s: String| s@),
            r@ == joined_lines(ls.take(i as int)),
        decreases lines@.len() - i,
    {
        assert(ls.take(i as int + 1).drop_last() =~= ls.take(i as int));
        if i > 0 {
            r.append("\n");
        } else {
            assert(ls.take(0) =~= Seq::<Seq<char>>::empty());
        }
        r.append(lines[i].as_str());
        i += 1;
    }
    assert(ls.take(i as int) =~= ls);
    r
}

fn room_and_date(e: &SAPEvent) -> (r: Vec<EmbedField>)
    ensures
        r@.map_values(|f: EmbedField| f@) == seq![
            field_view("Room"@, e.room@, true),
            field_view("Date"@, utc_minute_text(e.start as int), true),
        ],
{
    let mut r: Vec<EmbedField> = Vec::new();
    r.push(field("Room", e.room.clone(), true));
    r.push(field("Date", utc_minute(e.start), true));
    assert(r@.map_values(|f: EmbedField| f@) =~= seq![
        field_view("Room"@, e.room@, true),
        field_view("Date"@, utc_minute_text(e.start as int), true),
    ]);
    r
}

/// The notification summary of one change record.
pub fn change_embed(change: &EventChange) -> (r: Embed)
    ensures
        r@ == embed_of(change@),
{
    match change {
        EventChange::Added(e) => {
            let mut fields: Vec<EmbedField> = Vec::new();
            fields.push(field("Room", e.room.clone(), true));
            fields.push(field("Instructor", e.instructor.clone(), true));
            fields.push(field("Start", utc_minute(e.start), false));
            fields.push(field("End", utc_minute(e.end), false));
            let r = Embed {
                title: prefixed("✅ New Event: ", &e.title),
                color: COLOR_ADDED,
                description: None,
                fields,
            };
            assert(r@.fields =~= embed_of(change@).fields);
            r
        },
        EventChange::Modified { previous: _, current, changes } => {
            let joined = join_lines(changes);
            let r = Embed {
                title: prefixed("🔄 Event Modified: ", &current.title),
                color: COLOR_MODIFIED,
                description: Some(prefixed("**Changes:**\n", &joined)),
                fields: room_and_date(current),
            };
            r
        },
        EventChange::Deleted(e) => {
            Embed {
                title: prefixed("❌ Event Deleted: ", &e.title),
                color: COLOR_DELETED,
                description: None,
                fields: room_and_date(e),
            }
        },
    }
}

pub open spec fn embed_views(v: Seq<Embed>) -> Seq<EmbedView> {
    v.map_values(|e: Embed| e@)
}

/// One summary per change record, in the same order.
pub fn build_embeds(changes: &Vec<EventChange>) -> (r: Vec<Embed>)
    ensures
        embed_views(r@) == changes@.map_values(|c: EventChange| embed_of(c@)),
{
    let mut r: Vec<Embed> = Vec::new();
    let mut i: usize = 0;
    while i < changes.len()
        invariant
            i <= changes@.len(),
            r@.len() == i,
            forall|j: int| 0 <= j < i ==> #[trigger] r@[j]@ == embed_of(changes@[j]@),
        decreases changes@.len() - i,
    {
        r.push(change_embed(&changes[i]));
        i += 1;
    }
    assert(embed_views(r@) =~= changes@.map_values(|c: EventChange| embed_of(c@)));
    r
}

/// Batch `i` of a list of `n` items cut into batches of `BATCH_SIZE`.
pub open spec fn batch_start(i: int) -> int {
    i * BATCH_SIZE as int
}

pub open spec fn batch_end(i: int, n: int) -> int {
    if (i + 1) * BATCH_SIZE as int <= n {
        (i + 1) * BATCH_SIZE as int
    } else {
        n
    }
}

/// Cuts the summaries into consecutive batches of at most `BATCH_SIZE`, all
/// full but the last, keeping their order.
pub fn batches(embeds: Vec<Embed>) -> (r: Vec<Vec<Embed>>)
    ensures
        r@.len() == (embeds@.len() + BATCH_SIZE - 1) / BATCH_SIZE as int,
        forall|i: int|
            0 <= i < r@.len() ==> embed_views(#[trigger] r@[i]@) == embed_views(embeds@).subrange(
                batch_start(i),
                batch_end(i, embeds@.len() as int),
            ),
{
    let ghost all = embed_views(embeds@);
    let ghost n = embeds@.len() as int;
    let mut r: Vec<Vec<Embed>> = Vec::new();
    let mut current: Vec<Embed> = Vec::new();
    for e in it: embeds
        invariant
            it.seq() == embeds@,
            all == embed_views(embeds@),
            n == embeds@.len(),
            it.index() == r@.len() * BATCH_SIZE + current@.len(),
            current@.len() < BATCH_SIZE,
            embed_views(current@) == all.subrange(r@.len() * BATCH_SIZE as int, it.index() as int),
            forall|i: int|
                0 <= i < r@.len() ==> embed_views(#[trigger] r@[i]@) == all.subrange(
                    batch_start(i),
                    batch_start(i) + BATCH_SIZE,
                ),
        ensures
            n == r@.len() * BATCH_SIZE + current@.len(),
            current@.len() < BATCH_SIZE,
            embed_views(current@) == all.subrange(r@.len() * BATCH_SIZE as int, n),
            forall|i: int|
                0 <= i < r@.len() ==> embed_views(#[trigger] r@[i]@) == all.subrange(
                    batch_start(i),
                    batch_start(i) + BATCH_SIZE,
                ),
    {
        let ghost k = it.index() as int;
        let ghost ev = e@;
        assert(all[k] == ev);
        current.push(e);
        assert(embed_views(current@) =~= all.subrange(r@.len() * BATCH_SIZE as int, k + 1));
        if current.len() == BATCH_SIZE {
            let full = current;
            current = Vec::new();
            r.push(full);
            assert(embed_views(current@) =~= all.subrange(r@.len() * BATCH_SIZE as int, k + 1));
        }
    }
    let ghost full_batches = r@.len() as int;
    if current.len() > 0 {
        r.push(current);
    }
    assert forall|i: int| 0 <= i < r@.len() implies embed_views(#[trigger] r@[i]@) == all.subrange(
        batch_start(i),
        batch_end(i, n),
    ) by {
        if i < full_batches {
            assert((i + 1) * BATCH_SIZE as int <= full_batches * BATCH_SIZE as int) by (nonlinear_arith)
                requires i < full_batches;
        } else {
            assert((i + 1) * BATCH_SIZE as int > n) by (nonlinear_arith)
                requires i == full_batches, n < full_batches * BATCH_SIZE + BATCH_SIZE;
        }
    }
    assert(r@.len() == (n + BATCH_SIZE - 1) / BATCH_SIZE as int);
    r
}

} // verus!
