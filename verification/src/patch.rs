//! Changing some columns of a row that is there.

use vstd::prelude::*;
use vstd::utf8::encode_utf8;
use crate::json::{
    json_read, json_text, lemma_record_view, member, parse_json, record_view, render_json, Json,
    JsonView,
};
use crate::text::same_text;

verus! {

/// The place of the member called `name`, or the number of members.
pub open spec fn place_of(fields: Seq<(Seq<char>, JsonView)>, name: Seq<char>) -> int
    decreases fields.len(),
{
    if fields.len() == 0 || fields[0].0 == name {
        0
    } else {
        1 + place_of(fields.drop_first(), name)
    }
}

/// The columns with one of them set: in its place, or behind the others.
pub open spec fn with_column(
    fields: Seq<(Seq<char>, JsonView)>,
    name: Seq<char>,
    value: JsonView,
) -> Seq<(Seq<char>, JsonView)> {
    if place_of(fields, name) < fields.len() {
        fields.update(place_of(fields, name), (name, value))
    } else {
        fields.push((name, value))
    }
}

/// The columns with those of `change` set.
pub open spec fn with_columns(
    fields: Seq<(Seq<char>, JsonView)>,
    change: Seq<(Seq<char>, JsonView)>,
) -> Seq<(Seq<char>, JsonView)>
    decreases change.len(),
{
    if change.len() == 0 {
        fields
    } else {
        with_column(
            with_columns(fields, change.drop_last()),
            change.last().0,
            change.last().1,
        )
    }
}

/// The payload after a change of columns: nothing where either is no JSON object.
pub open spec fn patched(payload: Seq<u8>, change: Seq<u8>) -> Option<Seq<u8>> {
    match (json_read(payload), json_read(change)) {
        (Some(JsonView::Record(fields)), Some(JsonView::Record(set))) => Some(
            encode_utf8(json_text(JsonView::Record(with_columns(fields, set)))),
        ),
        _ => None,
    }
}

proof fn lemma_place(fields: Seq<(Seq<char>, JsonView)>, name: Seq<char>, i: int)
    requires
        0 <= i <= fields.len(),
        forall|k: int| 0 <= k < i ==> (#[trigger] fields[k]).0 != name,
        i < fields.len() ==> fields[i].0 == name,
    ensures
        place_of(fields, name) == i,
    decreases i,
{
    if i > 0 {
        assert(fields[0].0 != name);
        let rest = fields.drop_first();
        assert forall|k: int| 0 <= k < i - 1 implies (#[trigger] rest[k]).0 != name by {
            assert(rest[k] == fields[k + 1]);
        }
        lemma_place(rest, name, i - 1);
    }
}

/// Sets a column.
fn set_column(fields: &mut Vec<(String, Json)>, name: String, value: Json)
    ensures
        record_view(final(fields)@) == with_column(record_view(old(fields)@), name@, value@),
{
    let ghost before = record_view(fields@);
    let ghost entry = (name@, value@);
    proof {
        lemma_record_view(fields@);
    }
    let mut i: usize = 0;
    while i < fields.len() && !same_text(fields[i].0.as_str(), name.as_str())
        invariant
            i <= fields@.len(),
            fields@ == old(fields)@,
            before == record_view(fields@),
            before.len() == fields@.len(),
            forall|k: int| 0 <= k < fields@.len() ==> (#[trigger] before[k]).0 == fields@[k].0@,
            forall|k: int| 0 <= k < i ==> (#[trigger] before[k]).0 != name@,
        decreases fields@.len() - i,
    {
        i += 1;
    }
    proof {
        assert(i < fields@.len() ==> before[i as int].0 == name@);
        lemma_place(before, name@, i as int);
    }
    if i < fields.len() {
        fields.set(i, (name, value));
    } else {
        fields.push((name, value));
    }
    proof {
        lemma_record_view(fields@);
        assert(record_view(fields@) =~= with_column(before, entry.0, entry.1));
    }
}

/// The payload after a change of columns.
pub fn patch_payload(payload: &[u8], change: &[u8]) -> (r: Option<Vec<u8>>)
    ensures
        match patched(payload@, change@) {
            Some(bytes) => r is Some && r->0@ == bytes,
            None => r is None,
        },
{
    match (parse_json(payload), parse_json(change)) {
        (Some(Json::Record(fields)), Some(Json::Record(set))) => {
            let mut out = fields;
            let ghost base = record_view(out@);
            let ghost all = record_view(set@);
            let mut i: usize = 0;
            proof {
                lemma_record_view(set@);
                assert(all.take(0) =~= seq![]);
            }
            while i < set.len()
                invariant
                    i <= set@.len(),
                    all == record_view(set@),
                    all.len() == set@.len(),
                    forall|k: int|
                        0 <= k < set@.len() ==> #[trigger] all[k] == (set@[k].0@, set@[k].1@),
                    record_view(out@) == with_columns(base, all.take(i as int)),
                decreases set@.len() - i,
            {
                proof {
                    assert(all.take(i + 1).drop_last() =~= all.take(i as int));
                    assert(all.take(i + 1).last() == all[i as int]);
                }
                set_column(&mut out, set[i].0.clone(), set[i].1.clone());
                i += 1;
            }
            assert(all.take(i as int) =~= all);
            Some(render_json(&Json::Record(out)).as_str().as_bytes_vec())
        },
        _ => None,
    }
}

proof fn lemma_place_within(fields: Seq<(Seq<char>, JsonView)>, name: Seq<char>)
    ensures
        0 <= place_of(fields, name) <= fields.len(),
    decreases fields.len(),
{
    if fields.len() > 0 && fields[0].0 != name {
        lemma_place_within(fields.drop_first(), name);
    }
}

proof fn lemma_set_column(
    fields: Seq<(Seq<char>, JsonView)>,
    name: Seq<char>,
    value: JsonView,
    other: Seq<char>,
)
    ensures
        member(with_column(fields, name, value), other) == (if other == name {
            Some(value)
        } else {
            member(fields, other)
        }),
    decreases fields.len(),
{
    let after = with_column(fields, name, value);
    if fields.len() == 0 {
        assert(after.drop_first() =~= seq![]);
        assert(after[0] == (name, value));
        assert(member(after.drop_first(), other) is None);
    } else if fields[0].0 == name {
        assert(after.drop_first() =~= fields.drop_first());
        assert(after[0] == (name, value));
    } else {
        lemma_place_within(fields.drop_first(), name);
        lemma_set_column(fields.drop_first(), name, value, other);
        assert(after.drop_first() =~= with_column(fields.drop_first(), name, value));
        assert(after[0] == fields[0]);
    }
}

/// A change sets the columns that it names, and leaves every other column as it is.
pub proof fn law_patch_sets_its_columns_only(
    fields: Seq<(Seq<char>, JsonView)>,
    change: Seq<(Seq<char>, JsonView)>,
    name: Seq<char>,
)
    ensures
        (forall|i: int| 0 <= i < change.len() ==> (#[trigger] change[i]).0 != name) ==> member(
            with_columns(fields, change),
            name,
        ) == member(fields, name),
        forall|i: int|
            0 <= i < change.len() && (#[trigger] change[i]).0 == name && (forall|k: int|
                i < k < change.len() ==> (#[trigger] change[k]).0 != name) ==> member(
                with_columns(fields, change),
                name,
            ) == Some(change[i].1),
    decreases change.len(),
{
    if change.len() > 0 {
        let front = change.drop_last();
        law_patch_sets_its_columns_only(fields, front, name);
        lemma_set_column(
            with_columns(fields, front),
            change.last().0,
            change.last().1,
            name,
        );
        assert forall|i: int| 0 <= i < front.len() implies #[trigger] front[i] == change[i] by {}
        assert(change.last() == change[change.len() - 1]);
        assert forall|i: int|
            0 <= i < change.len() && (#[trigger] change[i]).0 == name && (forall|k: int|
                i < k < change.len() ==> (#[trigger] change[k]).0 != name) implies member(
            with_columns(fields, change),
            name,
        ) == Some(change[i].1) by {
            if i < change.len() - 1 {
                assert(front[i].0 == name);
                assert forall|k: int| i < k < front.len() implies (#[trigger] front[k]).0
                    != name by {
                    assert(change[k].0 != name);
                }
            }
        }
        if forall|i: int| 0 <= i < change.len() ==> (#[trigger] change[i]).0 != name {
            assert forall|i: int| 0 <= i < front.len() implies (#[trigger] front[i]).0 != name by {
                assert(change[i].0 != name);
            }
        }
    }
}

} // verus!
