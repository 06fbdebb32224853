//! What holds of every header and every MIME structure that is read.

use crate::bytes::{find_byte, lemma_find_byte, lemma_lowered_twice, lowered, trim, LF};
use crate::imap_extention::mime::{
    absorb, content_end, first_wins, has_name, header_scan, is_multipart, mime_tree, next_line,
    position, value_of, Field, COLON,
};
use vstd::prelude::*;

verus! {

/// Whether no name stands twice in a list of fields.
pub open spec fn names_once(fields: Seq<Field>) -> bool {
    forall|i: int, j: int|
        0 <= i < j < fields.len() ==> (#[trigger] fields[i]).name != (#[trigger] fields[j]).name
}

/// Whether every name of a list of fields is in lower case.
pub open spec fn names_lowered(fields: Seq<Field>) -> bool {
    forall|i: int| 0 <= i < fields.len() ==> lowered((#[trigger] fields[i]).name) == fields[i].name
}

/// Whether every field of `some` is a field of `all`.
pub open spec fn drawn_from(some: Seq<Field>, all: Seq<Field>) -> bool {
    forall|i: int| 0 <= i < some.len() ==> all.contains(#[trigger] some[i])
}

/// `position` names the first field with the name.
pub proof fn lemma_position(fields: Seq<Field>, name: Seq<u8>, from: int)
    requires
        0 <= from <= fields.len(),
    ensures
        from <= position(fields, name, from) <= fields.len(),
        forall|k: int|
            from <= k < position(fields, name, from) ==> (#[trigger] fields[k]).name != name,
        position(fields, name, from) < fields.len() ==> fields[position(fields, name, from)].name
            == name,
    decreases fields.len() - from,
{
    if from < fields.len() && fields[from].name != name {
        lemma_position(fields, name, from + 1);
    }
}

/// The first field with a name is found wherever the search starts before
/// it.
pub proof fn lemma_position_at(fields: Seq<Field>, name: Seq<u8>, from: int, at: int)
    requires
        0 <= from <= at <= fields.len(),
        forall|k: int| from <= k < at ==> (#[trigger] fields[k]).name != name,
        at < fields.len() ==> fields[at].name == name,
    ensures
        position(fields, name, from) == at,
    decreases at - from,
{
    if from < at {
        lemma_position_at(fields, name, from + 1, at);
    }
}

/// A field that is added at the end is found under its name only where no
/// field before it has that name.
pub proof fn lemma_value_of_push(fields: Seq<Field>, added: Field, name: Seq<u8>)
    ensures
        value_of(fields.push(added), name) == if value_of(fields, name) is Some {
            value_of(fields, name)
        } else if added.name == name {
            Some(added.value)
        } else {
            None
        },
{
    let more = fields.push(added);
    lemma_position(fields, name, 0);
    let at = position(fields, name, 0);
    assert forall|k: int| 0 <= k < at implies (#[trigger] more[k]).name != name by {
        assert(fields[k].name != name);
    }
    if at < fields.len() {
        assert(more[at] == fields[at]);
        lemma_position_at(more, name, 0, at);
    } else if added.name == name {
        lemma_position_at(more, name, 0, at);
    } else {
        lemma_position_at(more, name, 0, more.len() as int);
    }
}

/// Of the fields with one name the first wins: a name gives the same value
/// in the header as it was kept as in the list of all fields as they came,
/// and no name is kept twice.
pub proof fn lemma_first_wins(fields: Seq<Field>)
    ensures
        forall|name: Seq<u8>| #[trigger]
            value_of(first_wins(fields), name) == value_of(fields, name),
        names_once(first_wins(fields)),
        drawn_from(first_wins(fields), fields),
    decreases fields.len(),
{
    if fields.len() > 0 {
        let front = fields.drop_last();
        let last = fields.last();
        let kept = first_wins(front);
        lemma_first_wins(front);
        assert(front.push(last) =~= fields);
        assert forall|name: Seq<u8>| #[trigger]
            value_of(first_wins(fields), name) == value_of(fields, name) by {
            lemma_value_of_push(front, last, name);
            lemma_value_of_push(kept, last, name);
            assert(value_of(kept, name) == value_of(front, name));
            assert(value_of(kept, last.name) == value_of(front, last.name));
        }
        if !has_name(kept, last.name) {
            lemma_position(kept, last.name, 0);
            assert forall|i: int, j: int| 0 <= i < j < kept.push(last).len() implies (
            #[trigger] kept.push(last)[i]).name != (#[trigger] kept.push(last)[j]).name by {
                if j < kept.len() {
                    assert(kept[i].name != kept[j].name);
                } else {
                    assert(kept[i].name != last.name);
                }
            }
        }
        assert forall|i: int| 0 <= i < first_wins(fields).len() implies fields.contains(
            #[trigger] first_wins(fields)[i],
        ) by {
            if i < kept.len() {
                assert(front.contains(kept[i]));
                let k = choose|k: int| 0 <= k < front.len() && front[k] == kept[i];
                assert(fields[k] == kept[i]);
            } else {
                assert(fields[fields.len() - 1] == last);
            }
        }
    }
}

/// A line more leaves the names of the fields in lower case.
pub proof fn lemma_absorb_keeps_names_lowered(acc: Seq<Field>, line: Seq<u8>)
    requires
        names_lowered(acc),
    ensures
        names_lowered(absorb(acc, line)),
{
    let after = absorb(acc, line);
    assert forall|i: int| 0 <= i < after.len() implies lowered((#[trigger] after[i]).name)
        == after[i].name by {
        if i < acc.len() {
            assert(lowered(acc[i].name) == acc[i].name);
            assert(after[i].name == acc[i].name);
        } else {
            let c = find_byte(line, 0, COLON);
            lemma_lowered_twice(trim(line.take(c)));
        }
    }
}

/// Every name that a header is read to hold is in lower case.
pub proof fn lemma_scan_keeps_names_lowered(s: Seq<u8>, from: int, acc: Seq<Field>)
    requires
        names_lowered(acc),
    ensures
        names_lowered(header_scan(s, from, acc).fields),
    decreases s.len() - from,
{
    if 0 <= from < s.len() {
        let ce = content_end(s, from);
        let nx = next_line(s, from);
        if ce != from {
            lemma_find_byte(s, from, LF);
            lemma_absorb_keeps_names_lowered(acc, s.subrange(from, ce));
            lemma_scan_keeps_names_lowered(s, nx, absorb(acc, s.subrange(from, ce)));
        }
    }
}

/// The header of every part that is read is a mapping: its names are in
/// lower case, and no name stands in it twice.
pub proof fn lemma_header_is_a_mapping(data: Seq<u8>, depth: nat)
    ensures
        names_lowered(mime_tree(data, depth).headers),
        names_once(mime_tree(data, depth).headers),
{
    let all = header_scan(data, 0, Seq::empty()).fields;
    let kept = first_wins(all);
    lemma_scan_keeps_names_lowered(data, 0, Seq::empty());
    lemma_first_wins(all);
    assert forall|i: int| 0 <= i < kept.len() implies lowered((#[trigger] kept[i]).name)
        == kept[i].name by {
        assert(all.contains(kept[i]));
        let k = choose|k: int| 0 <= k < all.len() && all[k] == kept[i];
        assert(lowered(all[k].name) == all[k].name);
    }
}

/// A part is a container or a leaf, never both: a part whose content type
/// begins with `multipart/` has no body of its own, and any other part has
/// no parts.
pub proof fn lemma_container_or_leaf(data: Seq<u8>, depth: nat)
    ensures
        is_multipart(mime_tree(data, depth).content_type) ==> mime_tree(data, depth).body.len()
            == 0,
        !is_multipart(mime_tree(data, depth).content_type) ==> mime_tree(
            data,
            depth,
        ).children.len() == 0,
{
}

} // verus!
