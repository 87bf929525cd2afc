use crate::models::{EventView, SAPEvent};
use vstd::prelude::*;

verus! {

/// The calendar entry's description: the event's description, then its room,
/// instructor and, when there are any, its remarks.
pub open spec fn entry_description(e: EventView) -> Seq<char> {
    e.description + "\n\nRoom: "@ + e.room + "\nInstructor: "@ + e.instructor + "\n"@ + (if e.remarks.len()
        > 0 {
        "Remarks: "@ + e.remarks
    } else {
        Seq::<char>::empty()
    })
}

/// The description text of the calendar entry for `e`.
pub fn event_description(e: &SAPEvent) -> (r: String)
    ensures
        r@ == entry_description(e@),
{
    let mut r = e.description.clone();
    r.append("\n\nRoom: ");
    r.append(e.room.as_str());
    r.append("\nInstructor: ");
    r.append(e.instructor.as_str());
    r.append("\n");
    let ghost head = r@;
    assert(head == e@.description + "\n\nRoom: "@ + e@.room + "\nInstructor: "@ + e@.instructor + "\n"@);
    let empty = String::new();
    if e.remarks != empty {
        r.append("Remarks: ");
        r.append(e.remarks.as_str());
        assert(r@ =~= head + ("Remarks: "@ + e@.remarks));
        assert(e@.remarks.len() > 0) by {
            if e@.remarks.len() == 0 {
                assert(e@.remarks =~= Seq::<char>::empty());
            }
        }
    } else {
        assert(e@.remarks =~= Seq::<char>::empty());
        assert(r@ =~= head + Seq::<char>::empty());
    }
    r
}

} // verus!
