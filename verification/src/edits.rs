//! Exact text replacements: several at once, all found in the text as it was.
use vstd::prelude::*;

use crate::json::{models, models_index, Json, JsonModel};
use crate::text::{chars_of, decimal, decimal_text, join3, occurs, occurs_at, text_of};

verus! {

/// Every position from `from` on at which `part` stands in `s`, in order; positions that overlap
/// count as well.
pub open spec fn places(s: Seq<char>, part: Seq<char>, from: int) -> Seq<int>
    decreases s.len() + 1 - from,
{
    if from < 0 || from > s.len() {
        Seq::empty()
    } else if occurs_at(s, part, from) {
        seq![from] + places(s, part, from + 1)
    } else {
        places(s, part, from + 1)
    }
}

/// A replacement of the characters `start..end`.
#[derive(Debug)]
pub struct Replacement {
    pub start: usize,
    pub end: usize,
    pub text: String,
}

/// What a replacement says.
pub struct ReplacementModel {
    pub start: int,
    pub end: int,
    pub text: Seq<char>,
}

impl View for Replacement {
    type V = ReplacementModel;

    open spec fn view(&self) -> ReplacementModel {
        ReplacementModel { start: self.start as int, end: self.end as int, text: self.text@ }
    }
}

pub open spec fn replacement_models(items: Seq<Replacement>) -> Seq<ReplacementModel> {
    items.map_values(|item: Replacement| item@)
}

/// What is wrong with edit number `index` of a text, or the replacement that it asks for.
pub open spec fn edit_read(original: Seq<char>, edit: JsonModel, index: nat) -> Result<
    ReplacementModel,
    Seq<char>,
> {
    match edit.text_at("old_text"@) {
        None => Err("edit "@ + decimal(index) + " has no old_text"@),
        Some(old) => match edit.text_at("new_text"@) {
            None => Err("edit "@ + decimal(index) + " has no new_text"@),
            Some(new) => {
                let found = places(original, old, 0);
                if found.len() != 1 {
                    Err(
                        "edit "@ + decimal(index) + " old_text matched "@ + decimal(found.len())
                            + " locations"@,
                    )
                } else {
                    Ok(
                        ReplacementModel {
                            start: found[0],
                            end: found[0] + old.len(),
                            text: new,
                        },
                    )
                }
            },
        },
    }
}

/// The replacements that the edits ask for, or what is wrong with the first that is wrong.
pub open spec fn edits_read(original: Seq<char>, edits: Seq<JsonModel>) -> Result<
    Seq<ReplacementModel>,
    Seq<char>,
>
    decreases edits.len(),
{
    if edits.len() == 0 {
        Ok(Seq::empty())
    } else {
        match edits_read(original, edits.drop_last()) {
            Err(message) => Err(message),
            Ok(before) => match edit_read(original, edits.last(), edits.len()) {
                Err(message) => Err(message),
                Ok(replacement) => Ok(before.push(replacement)),
            },
        }
    }
}

/// An ordered list with one more replacement, behind those that start with it.
pub open spec fn placed(list: Seq<ReplacementModel>, item: ReplacementModel) -> Seq<
    ReplacementModel,
>
    decreases list.len(),
{
    if list.len() > 0 && list.last().start > item.start {
        placed(list.drop_last(), item).push(list.last())
    } else {
        list.push(item)
    }
}

/// The list in the order of where the replacements start; those that start together keep theirs.
pub open spec fn ordered(list: Seq<ReplacementModel>) -> Seq<ReplacementModel>
    decreases list.len(),
{
    if list.len() == 0 {
        Seq::empty()
    } else {
        placed(ordered(list.drop_last()), list.last())
    }
}

/// Whether a replacement of an ordered list reaches into the next.
pub open spec fn overlap(list: Seq<ReplacementModel>) -> bool {
    exists|i: int| 0 <= i && i + 1 < list.len() && (#[trigger] list[i]).end > list[i + 1].start
}

/// The text from `from` on with an ordered list of replacements made.
pub open spec fn woven(s: Seq<char>, from: int, list: Seq<ReplacementModel>) -> Seq<char>
    decreases list.len(),
{
    if list.len() == 0 {
        s.skip(from)
    } else {
        s.subrange(from, list[0].start) + list[0].text + woven(s, list[0].end, list.drop_first())
    }
}

/// The edited text, or why nothing was edited.
pub open spec fn edited(original: Seq<char>, edits: Seq<JsonModel>) -> Result<
    Seq<char>,
    Seq<char>,
> {
    match edits_read(original, edits) {
        Err(message) => Err(message),
        Ok(replacements) => if overlap(ordered(replacements)) {
            Err("edits overlap"@)
        } else {
            Ok(woven(original, 0, ordered(replacements)))
        },
    }
}

/// The number of places, and the first of them.
fn count_places(v: &Vec<char>, part: &Vec<char>) -> (r: (u64, usize))
    requires
        v.len() < u64::MAX,
        v.len() < usize::MAX,
    ensures
        r.0 == places(v@, part@, 0).len(),
        r.0 > 0 ==> r.1 == places(v@, part@, 0)[0] && occurs_at(v@, part@, r.1 as int),
{
    let mut count: u64 = 0;
    let mut first: usize = 0;
    let mut from: usize = 0;
    let ghost mut found = Seq::<int>::empty();
    proof {
        assert(found + places(v@, part@, 0) =~= places(v@, part@, 0));
    }
    while from <= v.len()
        invariant
            v.len() < u64::MAX,
            v.len() < usize::MAX,
            from <= v.len() + 1,
            places(v@, part@, 0) == found + places(v@, part@, from as int),
            count == found.len(),
            count <= from,
            count > 0 ==> first == found[0] && occurs_at(v@, part@, first as int),
        decreases v.len() + 1 - from,
    {
        let ghost here = from as int;
        if occurs(v, part, from) {
            if count == 0 {
                first = from;
            }
            count = count + 1;
            proof {
                assert(found + (seq![here] + places(v@, part@, here + 1)) =~= found.push(here)
                    + places(v@, part@, here + 1));
                found = found.push(here);
            }
        }
        from = from + 1;
    }
    proof {
        assert(places(v@, part@, 0) =~= found);
    }
    (count, first)
}

/// Puts a replacement into an ordered list.
fn place(list: &mut Vec<Replacement>, item: Replacement)
    ensures
        replacement_models(final(list)@) == placed(replacement_models(old(list)@), item@),
{
    let mut at: usize = list.len();
    let ghost all = replacement_models(list@);
    proof {
        assert(all.take(all.len() as int) =~= all);
        assert(all.skip(all.len() as int) =~= Seq::<ReplacementModel>::empty());
        assert(placed(all, item@) + all.skip(all.len() as int) =~= placed(all, item@));
    }
    while at > 0 && list[at - 1].start > item.start
        invariant
            at <= list.len(),
            all == replacement_models(list@),
            placed(all, item@) == placed(all.take(at as int), item@) + all.skip(at as int),
        decreases at,
    {
        proof {
            let head = all.take(at as int);
            assert(head.drop_last() =~= all.take(at - 1));
            assert(placed(all.take(at - 1), item@).push(all[at - 1]) + all.skip(at as int)
                =~= placed(all.take(at - 1), item@) + all.skip(at - 1));
        }
        at = at - 1;
    }
    proof {
        assert(placed(all.take(at as int), item@) == all.take(at as int).push(item@));
        assert(all.insert(at as int, item@) =~= all.take(at as int).push(item@) + all.skip(
            at as int,
        ));
    }
    list.insert(at, item);
    proof {
        assert(replacement_models(list@) =~= all.insert(at as int, item@));
    }
}

/// Makes the edits in `original`. All are found in the original text; on any fault nothing is
/// edited.
pub fn apply_edits(original: &str, edits: &Vec<Json>) -> (r: Result<String, String>)
    requires
        original@.len() < usize::MAX,
        edits.len() < u64::MAX,
    ensures
        match (r, edited(original@, models(edits@))) {
            (Ok(text), Ok(expected)) => text@ == expected,
            (Err(message), Err(expected)) => message@ == expected,
            _ => false,
        },
{
    let v = chars_of(original);
    let mut list: Vec<Replacement> = Vec::new();
    let ghost all = models(edits@);
    let ghost mut read = Seq::<ReplacementModel>::empty();
    let mut i: usize = 0;
    proof {
        models_index(edits@);
        assert(all.take(0) =~= Seq::<JsonModel>::empty());
        assert(replacement_models(list@) =~= ordered(read));
    }
    while i < edits.len()
        invariant
            i <= edits.len(),
            edits.len() < u64::MAX,
            v@ == original@,
            v.len() < u64::MAX,
            v.len() < usize::MAX,
            all == models(edits@),
            all.len() == edits.len(),
            forall|j: int| 0 <= j < edits.len() ==> #[trigger] all[j] == edits@[j]@,
            edits_read(original@, all.take(i as int)) == Ok::<
                Seq<ReplacementModel>,
                Seq<char>,
            >(read),
            replacement_models(list@) == ordered(read),
            in_text(read, original@.len() as int),
        decreases edits.len() - i,
    {
        let ghost upto = all.take(i + 1);
        proof {
            assert(upto.drop_last() =~= all.take(i as int));
            assert(all[i as int] == edits@[i as int]@);
        }
        let number = decimal_text(i as u64 + 1);
        let old = match edits[i].str_at("old_text") {
            Some(old) => old,
            None => {
                proof {
                    lemma_fault_stays(original@, all, i + 1);
                }
                return Err(join3("edit ", &number, " has no old_text"));
            },
        };
        let new = match edits[i].str_at("new_text") {
            Some(new) => new,
            None => {
                proof {
                    lemma_fault_stays(original@, all, i + 1);
                }
                return Err(join3("edit ", &number, " has no new_text"));
            },
        };
        let part = chars_of(old);
        let (count, start) = count_places(&v, &part);
        if count != 1 {
            let mut message = join3("edit ", &number, " old_text matched ");
            message.append(&decimal_text(count));
            message.append(" locations");
            proof {
                lemma_fault_stays(original@, all, i + 1);
            }
            return Err(message);
        }
        let item = Replacement { start, end: start + part.len(), text: new.to_owned() };
        proof {
            let before = read;
            read = read.push(item@);
            assert(read.drop_last() =~= before);
        }
        place(&mut list, item);
        i = i + 1;
    }
    proof {
        assert(all.take(all.len() as int) =~= all);
        lemma_ordered(read, original@.len() as int);
    }
    weave(&v, &list)
}

/// Whether the replacements lie in a text of that length.
spec fn in_text(list: Seq<ReplacementModel>, length: int) -> bool {
    forall|i: int| 0 <= i < list.len() ==> 0 <= (#[trigger] list[i]).start <= list[i].end <= length
}

/// A fault in one of the first edits is a fault of all.
proof fn lemma_fault_stays(original: Seq<char>, edits: Seq<JsonModel>, count: int)
    requires
        0 <= count <= edits.len(),
        edits_read(original, edits.take(count)) is Err,
    ensures
        edits_read(original, edits) == edits_read(original, edits.take(count)),
    decreases edits.len() - count,
{
    if count < edits.len() {
        assert(edits.take(count + 1).drop_last() =~= edits.take(count));
        lemma_fault_stays(original, edits, count + 1);
    } else {
        assert(edits.take(count) =~= edits);
    }
}

proof fn lemma_placed(list: Seq<ReplacementModel>, item: ReplacementModel, length: int)
    requires
        in_text(list, length),
        0 <= item.start <= item.end <= length,
    ensures
        in_text(placed(list, item), length),
    decreases list.len(),
{
    if list.len() > 0 && list.last().start > item.start {
        assert(in_text(list.drop_last(), length));
        lemma_placed(list.drop_last(), item, length);
    }
}

proof fn lemma_ordered(list: Seq<ReplacementModel>, length: int)
    requires
        in_text(list, length),
    ensures
        in_text(ordered(list), length),
    decreases list.len(),
{
    if list.len() > 0 {
        assert(in_text(list.drop_last(), length));
        lemma_ordered(list.drop_last(), length);
        lemma_placed(ordered(list.drop_last()), list.last(), length);
    }
}

/// Makes an ordered list of replacements, unless two of them overlap.
fn weave(v: &Vec<char>, list: &Vec<Replacement>) -> (r: Result<String, String>)
    requires
        in_text(replacement_models(list@), v@.len() as int),
    ensures
        match r {
            Ok(text) => !overlap(replacement_models(list@)) && text@ == woven(
                v@,
                0,
                replacement_models(list@),
            ),
            Err(message) => overlap(replacement_models(list@)) && message@ == "edits overlap"@,
        },
{
    let ghost all = replacement_models(list@);
    let mut out: String = String::new();
    let mut from: usize = 0;
    let mut i: usize = 0;
    proof {
        assert(all.skip(0) =~= all);
        assert(out@ + woven(v@, 0, all) =~= woven(v@, 0, all));
    }
    while i < list.len()
        invariant
            i <= list.len(),
            all == replacement_models(list@),
            in_text(all, v@.len() as int),
            from <= v.len(),
            i > 0 ==> from == all[i - 1].end,
            i == 0 ==> from == 0,
            forall|j: int, k: int|
                0 <= j < i && k == j + 1 && k < i ==> (#[trigger] all[j]).end <= (
                #[trigger] all[k]).start,
            woven(v@, 0, all) == out@ + woven(v@, from as int, all.skip(i as int)),
        decreases list.len() - i,
    {
        proof {
            assert(all[i as int] == list@[i as int]@);
            assert(all.skip(i as int).drop_first() =~= all.skip(i + 1));
            assert(all.skip(i as int)[0] == all[i as int]);
        }
        let start: usize = list[i].start;
        if from > start {
            proof {
                assert(all[i - 1].end > all[i - 1 + 1].start);
                assert(overlap(all));
            }
            return Err("edits overlap".to_owned());
        }
        let gap = text_of(v, from, start);
        let ghost before = out@;
        out.append(&gap);
        out.append(&list[i].text);
        from = list[i].end;
        proof {
            let rest = woven(v@, from as int, all.skip(i + 1));
            assert(out@ == before + gap@ + all[i as int].text);
            assert(before + (gap@ + all[i as int].text + rest) =~= before + gap@
                + all[i as int].text + rest);
        }
        i = i + 1;
    }
    proof {
        assert(all.skip(i as int) =~= Seq::<ReplacementModel>::empty());
        assert(!overlap(all));
    }
    let rest = text_of(v, from, v.len());
    proof {
        assert(v@.skip(from as int) =~= rest@);
    }
    out.append(&rest);
    Ok(out)
}

/// The places of a text are the positions at which it stands, each once and in order.
pub proof fn places_are_all_positions(s: Seq<char>, part: Seq<char>, from: int)
    requires
        0 <= from,
    ensures
        forall|k: int|
            0 <= k < places(s, part, from).len() ==> occurs_at(
                s,
                part,
                #[trigger] places(s, part, from)[k],
            ) && from <= places(s, part, from)[k],
        forall|k: int, l: int|
            0 <= k < l < places(s, part, from).len() ==> #[trigger] places(s, part, from)[k]
                < #[trigger] places(s, part, from)[l],
        forall|i: int| from <= i && occurs_at(s, part, i) ==> places(s, part, from).contains(i),
    decreases s.len() + 1 - from,
{
    if from <= s.len() {
        let rest = places(s, part, from + 1);
        let all = places(s, part, from);
        places_are_all_positions(s, part, from + 1);
        if occurs_at(s, part, from) {
            assert(all == seq![from] + rest);
            assert forall|k: int| 0 <= k < all.len() implies occurs_at(s, part, #[trigger] all[k])
                && from <= all[k] by {
                if k > 0 {
                    assert(all[k] == rest[k - 1]);
                }
            }
            assert forall|k: int, l: int| 0 <= k < l < all.len() implies #[trigger] all[k]
                < #[trigger] all[l] by {
                assert(all[l] == rest[l - 1]);
                if k > 0 {
                    assert(all[k] == rest[k - 1]);
                }
            }
            assert forall|i: int| from <= i && occurs_at(s, part, i) implies all.contains(i) by {
                if i == from {
                    assert(all[0] == i);
                } else {
                    let k = choose|k: int| 0 <= k < rest.len() && rest[k] == i;
                    assert(all[k + 1] == i);
                }
            }
        } else {
            assert forall|i: int| from <= i && occurs_at(s, part, i) implies all.contains(i) by {
                assert(i != from);
                assert(rest.contains(i));
            }
        }
    }
}

/// Whether `part` stands in `s` at `at` and nowhere else.
pub open spec fn stands_only_at(s: Seq<char>, part: Seq<char>, at: int) -> bool {
    occurs_at(s, part, at) && forall|j: int| #[trigger] occurs_at(s, part, j) ==> j == at
}

/// A text has one place exactly where it stands at one position and nowhere else, and the place is
/// that position.
pub proof fn unique_text_is_found_once(s: Seq<char>, part: Seq<char>)
    ensures
        places(s, part, 0).len() == 1 <==> exists|i: int| #[trigger] stands_only_at(s, part, i),
        forall|i: int| #[trigger] stands_only_at(s, part, i) ==> places(s, part, 0) == seq![i],
{
    places_are_all_positions(s, part, 0);
    let all = places(s, part, 0);
    if all.len() == 1 {
        assert(stands_only_at(s, part, all[0])) by {
            assert forall|j: int| #[trigger] occurs_at(s, part, j) implies j == all[0] by {
                assert(all.contains(j));
            }
        }
    }
    assert forall|i: int| #[trigger] stands_only_at(s, part, i) implies all == seq![i] by {
        assert(all.contains(i));
        if all.len() > 1 {
            assert(occurs_at(s, part, all[0]) && occurs_at(s, part, all[1]));
            assert(all[0] < all[1]);
        }
        assert(all =~= seq![i]);
    }
}

/// One edit of a text that stands in the original once puts the new text in its place and leaves
/// everything else.
pub proof fn one_edit_replaces_its_text(original: Seq<char>, edit: JsonModel, at: int)
    requires
        edit.text_at("old_text"@) is Some,
        edit.text_at("new_text"@) is Some,
        stands_only_at(original, edit.text_at("old_text"@)->0, at),
    ensures
        edited(original, seq![edit]) == Ok::<Seq<char>, Seq<char>>(
            original.take(at) + edit.text_at("new_text"@)->0 + original.skip(
                at + edit.text_at("old_text"@)->0.len(),
            ),
        ),
{
    let old = edit.text_at("old_text"@)->0;
    let new = edit.text_at("new_text"@)->0;
    unique_text_is_found_once(original, old);
    let edits = seq![edit];
    let item = ReplacementModel { start: at, end: at + old.len(), text: new };
    assert(edits.drop_last() =~= Seq::<JsonModel>::empty());
    assert(edits_read(original, edits.drop_last()) == Ok::<Seq<ReplacementModel>, Seq<char>>(
        Seq::empty(),
    ));
    let list = Seq::<ReplacementModel>::empty().push(item);
    assert(edits_read(original, edits) == Ok::<Seq<ReplacementModel>, Seq<char>>(list));
    assert(list.drop_last() =~= Seq::<ReplacementModel>::empty());
    assert(ordered(list.drop_last()) == Seq::<ReplacementModel>::empty());
    assert(ordered(list) == list);
    assert(list.drop_first() =~= Seq::<ReplacementModel>::empty());
    assert(woven(original, item.end, list.drop_first()) == original.skip(item.end));
    assert(original.subrange(0, at) =~= original.take(at));
}

/// An edit of a text that stands in the original nowhere, or at two positions even if they overlap,
/// is refused.
pub proof fn other_edits_are_refused(original: Seq<char>, edit: JsonModel)
    requires
        edit.text_at("old_text"@) is Some,
        forall|at: int| !#[trigger] stands_only_at(original, edit.text_at("old_text"@)->0, at),
    ensures
        edited(original, seq![edit]) is Err,
{
    unique_text_is_found_once(original, edit.text_at("old_text"@)->0);
    let edits = seq![edit];
    assert(edits.drop_last() =~= Seq::<JsonModel>::empty());
    assert(edits_read(original, edits.drop_last()) is Ok);
}

/// The replacements are made in the order in which they start, and all of them are.
pub proof fn ordering_keeps_replacements(list: Seq<ReplacementModel>)
    ensures
        ordered(list).to_multiset() == list.to_multiset(),
        forall|i: int, j: int|
            0 <= i < j < list.len() ==> (#[trigger] ordered(list)[i]).start <= (
            #[trigger] ordered(list)[j]).start,
    decreases list.len(),
{
    broadcast use vstd::seq_lib::group_to_multiset_ensures;

    if list.len() > 0 {
        let rest = list.drop_last();
        ordering_keeps_replacements(rest);
        assert(list =~= rest.push(list.last()));
        rest.to_multiset_ensures();
        list.to_multiset_ensures();
        ordered(rest).to_multiset_ensures();
        lemma_same_length(rest);
        lemma_placed_keeps(ordered(rest), list.last());
    } else {
        assert(ordered(list) =~= list);
    }
}

proof fn lemma_same_length(list: Seq<ReplacementModel>)
    ensures
        ordered(list).len() == list.len(),
    decreases list.len(),
{
    if list.len() > 0 {
        lemma_same_length(list.drop_last());
        lemma_placed_length(ordered(list.drop_last()), list.last());
    }
}

proof fn lemma_placed_length(list: Seq<ReplacementModel>, item: ReplacementModel)
    ensures
        placed(list, item).len() == list.len() + 1,
    decreases list.len(),
{
    if list.len() > 0 && list.last().start > item.start {
        lemma_placed_length(list.drop_last(), item);
    }
}

proof fn lemma_placed_keeps(list: Seq<ReplacementModel>, item: ReplacementModel)
    requires
        forall|i: int, j: int|
            0 <= i < j < list.len() ==> (#[trigger] list[i]).start <= (#[trigger] list[j]).start,
    ensures
        placed(list, item).to_multiset() == list.to_multiset().insert(item),
        placed(list, item).len() == list.len() + 1,
        forall|i: int, j: int|
            0 <= i < j < placed(list, item).len() ==> (#[trigger] placed(list, item)[i]).start <= (
            #[trigger] placed(list, item)[j]).start,
        forall|i: int|
            0 <= i < placed(list, item).len() ==> (#[trigger] placed(list, item)[i]).start
                <= item.start || exists|k: int|
                0 <= k < list.len() && placed(list, item)[i] == #[trigger] list[k],
    decreases list.len(),
{
    broadcast use vstd::seq_lib::group_to_multiset_ensures;

    list.to_multiset_ensures();
    if list.len() > 0 && list.last().start > item.start {
        let rest = list.drop_last();
        lemma_placed_keeps(rest, item);
        rest.to_multiset_ensures();
        let before = placed(rest, item);
        before.to_multiset_ensures();
        let all = placed(list, item);
        assert(list =~= rest.push(list.last()));
        assert(all.to_multiset() =~= list.to_multiset().insert(item));
        assert forall|i: int, j: int| 0 <= i < j < all.len() implies (#[trigger] all[i]).start <= (
        #[trigger] all[j]).start by {
            if j < before.len() {
                assert(all[i] == before[i] && all[j] == before[j]);
            } else {
                assert(all[i] == before[i]);
                if before[i].start > item.start {
                    let k = choose|k: int| 0 <= k < rest.len() && before[i] == #[trigger] rest[k];
                    assert(rest[k] == list[k]);
                }
            }
        }
        assert forall|i: int| 0 <= i < all.len() implies (#[trigger] all[i]).start <= item.start
            || exists|k: int| 0 <= k < list.len() && all[i] == #[trigger] list[k] by {
            if i < before.len() {
                assert(all[i] == before[i]);
                if before[i].start > item.start {
                    let k = choose|k: int| 0 <= k < rest.len() && before[i] == #[trigger] rest[k];
                    assert(rest[k] == list[k]);
                }
            } else {
                assert(all[i] == list[list.len() - 1]);
            }
        }
    } else {
        let all = placed(list, item);
        assert(all.to_multiset() =~= list.to_multiset().insert(item));
        assert forall|i: int, j: int| 0 <= i < j < all.len() implies (#[trigger] all[i]).start <= (
        #[trigger] all[j]).start by {
            if j == list.len() && list.len() > 0 {
                assert(list[i].start <= list[list.len() - 1].start);
            }
        }
        assert forall|i: int| 0 <= i < all.len() implies (#[trigger] all[i]).start <= item.start
            || exists|k: int| 0 <= k < list.len() && all[i] == #[trigger] list[k] by {
            if i < list.len() {
                assert(all[i] == list[i]);
            }
        }
    }
}

/// Whether `edit` asks for a replacement: of its old text, at the only position where that stands in
/// the original, by its new text.
pub open spec fn asks_for(original: Seq<char>, edit: JsonModel, r: ReplacementModel) -> bool {
    &&& edit.get("old_text"@) matches Some(JsonModel::Text(old)) && r.end == r.start + old.len()
        && stands_only_at(original, old, r.start)
    &&& edit.get("new_text"@) == Some(JsonModel::Text(r.text))
}

/// Whether an edit asks for nothing that can be made.
pub open spec fn is_wrong(original: Seq<char>, edit: JsonModel) -> bool {
    forall|r: ReplacementModel| !#[trigger] asks_for(original, edit, r)
}

proof fn lemma_asks_for(original: Seq<char>, edit: JsonModel, index: nat)
    ensures
        match edit_read(original, edit, index) {
            Ok(r) => asks_for(original, edit, r),
            Err(_) => is_wrong(original, edit),
        },
{
    match edit.get("old_text"@) {
        Some(JsonModel::Text(old)) => {
            unique_text_is_found_once(original, old);
            let found = places(original, old, 0);
            if found.len() == 1 {
                let at = choose|at: int| #[trigger] stands_only_at(original, old, at);
                assert(found == seq![at]);
            }
        },
        _ => {},
    }
}

proof fn lemma_edits_read(original: Seq<char>, edits: Seq<JsonModel>)
    ensures
        match edits_read(original, edits) {
            Ok(list) => {
                &&& list.len() == edits.len()
                &&& forall|k: int|
                    0 <= k < edits.len() ==> asks_for(original, #[trigger] edits[k], list[k])
            },
            Err(_) => exists|k: int|
                0 <= k < edits.len() && is_wrong(original, #[trigger] edits[k]),
        },
    decreases edits.len(),
{
    if edits.len() > 0 {
        let rest = edits.drop_last();
        lemma_edits_read(original, rest);
        lemma_asks_for(original, edits.last(), edits.len());
        match edits_read(original, rest) {
            Err(_) => {
                let k = choose|k: int|
                    0 <= k < rest.len() && is_wrong(original, #[trigger] rest[k]);
                assert(edits[k] == rest[k]);
            },
            Ok(before) => match edit_read(original, edits.last(), edits.len()) {
                Ok(r) => {
                    let list = before.push(r);
                    assert forall|k: int| 0 <= k < edits.len() implies asks_for(
                        original,
                        #[trigger] edits[k],
                        list[k],
                    ) by {
                        if k < rest.len() {
                            assert(rest[k] == edits[k]);
                            assert(list[k] == before[k]);
                        }
                    }
                },
                Err(_) => {
                    assert(edits[edits.len() - 1] == edits.last());
                },
            },
        }
    }
}

/// How much longer the text before the replacement `i` of an ordered list becomes.
pub open spec fn shift(list: Seq<ReplacementModel>, i: int) -> int
    decreases i,
{
    if i <= 0 {
        0
    } else {
        shift(list, i - 1) + list[i - 1].text.len() - (list[i - 1].end - list[i - 1].start)
    }
}

/// Whether replacements stand in a text one behind the other.
pub open spec fn are_apart(original: Seq<char>, list: Seq<ReplacementModel>) -> bool {
    &&& forall|i: int|
        0 <= i < list.len() ==> 0 <= (#[trigger] list[i]).start <= list[i].end <= original.len()
    &&& forall|i: int, j: int|
        0 <= i < list.len() && j == i + 1 && j < list.len() ==> (#[trigger] list[i]).end <= (
        #[trigger] list[j]).start
}

/// Where what stands between the replacements `i - 1` and `i` begins and ends.
pub open spec fn gap_start(list: Seq<ReplacementModel>, i: int) -> int {
    if i <= 0 {
        0
    } else {
        list[i - 1].end
    }
}

pub open spec fn gap_end(original: Seq<char>, list: Seq<ReplacementModel>, i: int) -> int {
    if i >= list.len() {
        original.len() as int
    } else {
        list[i].start
    }
}

/// Whether a text is the original with the replacements made: each new text stands where the old one
/// stood, moved by what the replacements before it add, and so does everything between them.
pub open spec fn is_replaced(
    original: Seq<char>,
    list: Seq<ReplacementModel>,
    text: Seq<char>,
) -> bool {
    &&& text.len() == original.len() + shift(list, list.len() as int)
    &&& forall|i: int|
        0 <= i < list.len() ==> occurs_at(
            text,
            (#[trigger] list[i]).text,
            list[i].start + shift(list, i),
        )
    &&& forall|i: int, c: int|
        0 <= i <= list.len() && gap_start(list, i) <= c < gap_end(original, list, i) ==> text[c
            + #[trigger] shift(list, i)] == #[trigger] original[c]
}

/// The text from the end of the replacement `i - 1` on is the end of the whole text.
proof fn lemma_woven_tail(original: Seq<char>, list: Seq<ReplacementModel>, i: int)
    requires
        are_apart(original, list),
        0 <= i <= list.len(),
    ensures
        0 <= gap_start(list, i) <= original.len(),
        gap_start(list, i) + shift(list, i) >= 0,
        ({
            let whole = woven(original, 0, list);
            let tail = woven(original, gap_start(list, i), list.skip(i));
            &&& whole.len() == gap_start(list, i) + shift(list, i) + tail.len()
            &&& tail == whole.skip(gap_start(list, i) + shift(list, i))
        }),
    decreases i,
{
    let whole = woven(original, 0, list);
    if i == 0 {
        assert(list.skip(0) =~= list);
        assert(whole.skip(0) =~= whole);
    } else {
        lemma_woven_tail(original, list, i - 1);
        let from = gap_start(list, i - 1);
        let before = woven(original, from, list.skip(i - 1));
        let tail = woven(original, list[i - 1].end, list.skip(i));
        assert(list.skip(i - 1)[0] == list[i - 1]);
        assert(list.skip(i - 1).drop_first() =~= list.skip(i));
        if i > 1 {
            assert(list[i - 2].end <= list[i - 1].start);
        }
        assert(before == original.subrange(from, list[i - 1].start) + list[i - 1].text + tail);
        let head = (list[i - 1].start - from) + list[i - 1].text.len();
        assert(before.skip(head) =~= tail);
        assert(whole.skip(from + shift(list, i - 1)).skip(head) =~= whole.skip(
            from + shift(list, i - 1) + head,
        ));
        assert(from + shift(list, i - 1) + head == list[i - 1].end + shift(list, i));
    }
}

proof fn lemma_woven(original: Seq<char>, list: Seq<ReplacementModel>)
    requires
        are_apart(original, list),
    ensures
        is_replaced(original, list, woven(original, 0, list)),
{
    let text = woven(original, 0, list);
    let n = list.len() as int;
    lemma_woven_tail(original, list, n);
    assert(list.skip(n).len() == 0);
    assert forall|i: int| 0 <= i < list.len() implies occurs_at(
        text,
        (#[trigger] list[i]).text,
        list[i].start + shift(list, i),
    ) by {
        lemma_woven_tail(original, list, i);
        let from = gap_start(list, i);
        let tail = woven(original, from, list.skip(i));
        assert(list.skip(i)[0] == list[i]);
        if i > 0 {
            assert(list[i - 1].end <= list[i].start);
        }
        let at = list[i].start + shift(list, i);
        let rest = woven(original, list[i].end, list.skip(i).drop_first());
        assert(tail == original.subrange(from, list[i].start) + list[i].text + rest);
        assert(text.subrange(at, at + list[i].text.len()) =~= tail.subrange(
            list[i].start - from,
            list[i].start - from + list[i].text.len(),
        ));
        assert(tail.subrange(
            list[i].start - from,
            list[i].start - from + list[i].text.len(),
        ) =~= list[i].text);
    }
    assert forall|i: int, c: int|
        0 <= i <= list.len() && gap_start(list, i) <= c < gap_end(original, list, i) implies text[c
        + #[trigger] shift(list, i)] == #[trigger] original[c] by {
        lemma_woven_tail(original, list, i);
        let from = gap_start(list, i);
        let tail = woven(original, from, list.skip(i));
        if i < list.len() {
            assert(list.skip(i)[0] == list[i]);
            let rest = woven(original, list[i].end, list.skip(i).drop_first());
            assert(tail == original.subrange(from, list[i].start) + list[i].text + rest);
            assert(tail[c - from] == original[c]);
        } else {
            assert(tail == original.skip(from));
            assert(tail[c - from] == original[c]);
        }
        assert(text.skip(from + shift(list, i))[c - from] == text[c + shift(list, i)]);
    }
}

/// Edits that are made are all made, each at the only position where its old text stands in the
/// original: its new text stands there instead, moved by what the edits before it add, and every
/// character that no edit replaces stays. Edits that are made do not overlap.
pub proof fn made_edits_replace_their_texts(original: Seq<char>, edits: Seq<JsonModel>)
    requires
        edited(original, edits) is Ok,
    ensures
        exists|list: Seq<ReplacementModel>|
            {
                &&& list.len() == edits.len()
                &&& are_apart(original, list)
                &&& forall|k: int|
                    0 <= k < edits.len() ==> is_made(original, #[trigger] edits[k], list)
                &&& #[trigger] is_replaced(original, list, edited(original, edits)->Ok_0)
            },
{
    broadcast use vstd::seq_lib::group_to_multiset_ensures;

    lemma_edits_read(original, edits);
    let asked = edits_read(original, edits)->Ok_0;
    let list = ordered(asked);
    ordering_keeps_replacements(asked);
    lemma_same_length(asked);
    asked.to_multiset_ensures();
    list.to_multiset_ensures();
    assert forall|i: int| 0 <= i < list.len() implies 0 <= (#[trigger] list[i]).start
        <= list[i].end <= original.len() by {
        assert(list.contains(list[i]));
        assert(asked.to_multiset().count(list[i]) > 0);
        assert(asked.contains(list[i]));
        let k = choose|k: int| 0 <= k < asked.len() && asked[k] == list[i];
        assert(asks_for(original, edits[k], asked[k]));
    }
    assert forall|i: int| 0 <= i && i + 1 < list.len() implies (#[trigger] list[i]).end
        <= list[i + 1].start by {}
    lemma_woven(original, list);
    assert forall|k: int| 0 <= k < edits.len() implies is_made(
        original,
        #[trigger] edits[k],
        list,
    ) by {
        assert(asked.contains(asked[k]));
        assert(list.to_multiset().count(asked[k]) > 0);
        assert(list.contains(asked[k]));
        let i = choose|i: int| 0 <= i < list.len() && list[i] == asked[k];
        assert(asks_for(original, edits[k], list[i]));
    }
    assert(is_replaced(original, list, edited(original, edits)->Ok_0));
}

/// Whether the replacement that an edit asks for is one of these.
pub open spec fn is_made(
    original: Seq<char>,
    edit: JsonModel,
    list: Seq<ReplacementModel>,
) -> bool {
    exists|i: int| 0 <= i < list.len() && asks_for(original, edit, #[trigger] list[i])
}

/// An edit that has no old or no new text, or an old text that does not stand in the original at one
/// position only, has all edits refused. Where each edit asks for a replacement they are refused only
/// if two overlap, and are made if they start apart and none reaches into another.
pub proof fn good_edits_are_made(
    original: Seq<char>,
    edits: Seq<JsonModel>,
    asked: Seq<ReplacementModel>,
)
    ensures
        (exists|k: int|
            0 <= k < edits.len() && is_wrong(original, #[trigger] edits[k])) ==> edited(original, edits) is Err,
        asked.len() == edits.len() && (forall|k: int|
            0 <= k < edits.len() ==> asks_for(original, #[trigger] edits[k], asked[k])) ==> {
            &&& edited(original, edits) matches Err(message) ==> message == "edits overlap"@
            &&& (forall|k: int, l: int|
                #![trigger asked[k], asked[l]]
                0 <= k < l < asked.len() ==> asked[k].start != asked[l].start && (asked[k].end
                    <= asked[l].start || asked[l].end <= asked[k].start)) ==> edited(
                original,
                edits,
            ) is Ok
        },
{
    broadcast use vstd::seq_lib::group_to_multiset_ensures;

    lemma_edits_read(original, edits);
    if exists|k: int|
        0 <= k < edits.len() && is_wrong(original, #[trigger] edits[k]) {
        let k = choose|k: int|
            0 <= k < edits.len() && is_wrong(original, #[trigger] edits[k]);
        if edits_read(original, edits) is Ok {
            assert(asks_for(original, edits[k], edits_read(original, edits)->Ok_0[k]));
        }
    }
    if asked.len() == edits.len() && (forall|k: int|
        0 <= k < edits.len() ==> asks_for(original, #[trigger] edits[k], asked[k])) {
        if edits_read(original, edits) is Err {
            let k = choose|k: int|
                0 <= k < edits.len() && is_wrong(original, #[trigger] edits[k]);
            assert(asks_for(original, edits[k], asked[k]));
        }
        let read = edits_read(original, edits)->Ok_0;
        assert forall|k: int| 0 <= k < edits.len() implies #[trigger] read[k] == asked[k] by {
            assert(asks_for(original, edits[k], asked[k]));
            assert(asks_for(original, edits[k], read[k]));
            let old = edits[k].get("old_text"@)->0->Text_0;
            assert(occurs_at(original, old, asked[k].start));
            assert(stands_only_at(original, old, read[k].start));
        }
        assert(read =~= asked);
        if forall|k: int, l: int|
            #![trigger asked[k], asked[l]]
            0 <= k < l < asked.len() ==> asked[k].start != asked[l].start && (asked[k].end
                <= asked[l].start || asked[l].end <= asked[k].start) {
            let list = ordered(asked);
            ordering_keeps_replacements(asked);
            lemma_same_length(asked);
            asked.to_multiset_ensures();
            list.to_multiset_ensures();
            assert(asked.no_duplicates());
            asked.lemma_multiset_has_no_duplicates();
            list.lemma_multiset_has_no_duplicates_conv();
            assert forall|i: int| 0 <= i && i + 1 < list.len() implies (#[trigger] list[i]).end
                <= list[i + 1].start by {
                assert(list.contains(list[i]) && list.contains(list[i + 1]));
                assert(asked.to_multiset().count(list[i]) > 0);
                assert(asked.to_multiset().count(list[i + 1]) > 0);
                let k = choose|k: int| 0 <= k < asked.len() && asked[k] == list[i];
                let l = choose|l: int| 0 <= l < asked.len() && asked[l] == list[i + 1];
                assert(list[i] != list[i + 1]);
                assert(asks_for(original, edits[k], asked[k]));
                assert(asks_for(original, edits[l], asked[l]));
                assert(asked[k].start <= asked[l].start);
                if k < l {
                    assert(asked[k].start != asked[l].start);
                } else {
                    assert(asked[l].start != asked[k].start);
                }
            }
            assert(!overlap(list));
        }
    }
}

/// Edits that are refused name what is wrong with the first one that is: it is counted from one.
pub proof fn refusals_name_the_first_wrong_edit(
    original: Seq<char>,
    edits: Seq<JsonModel>,
    k: int,
)
    requires
        0 <= k < edits.len(),
        is_wrong(original, edits[k]),
        forall|j: int| 0 <= j < k ==> !is_wrong(original, #[trigger] edits[j]),
    ensures
        edited(original, edits) == Err::<Seq<char>, Seq<char>>(
            "edit "@ + decimal((k + 1) as nat) + match (
                edits[k].get("old_text"@),
                edits[k].get("new_text"@),
            ) {
                (Some(JsonModel::Text(old)), Some(JsonModel::Text(_))) => " old_text matched "@
                    + decimal(places(original, old, 0).len()) + " locations"@,
                (Some(JsonModel::Text(_)), _) => " has no new_text"@,
                _ => " has no old_text"@,
            },
        ),
{
    let head = edits.take(k);
    let upto = edits.take(k + 1);
    lemma_edits_read(original, head);
    if edits_read(original, head) is Err {
        let j = choose|j: int|
            0 <= j < head.len() && is_wrong(original, #[trigger] head[j]);
        assert(head[j] == edits[j]);
    }
    assert(upto.drop_last() =~= head);
    assert(upto.last() == edits[k]);
    lemma_asks_for(original, edits[k], upto.len());
    lemma_fault_stays(original, edits, k + 1);
    match (edits[k].get("old_text"@), edits[k].get("new_text"@)) {
        (Some(JsonModel::Text(old)), Some(JsonModel::Text(_))) => {
            assert("edit "@ + decimal((k + 1) as nat) + (" old_text matched "@ + decimal(
                places(original, old, 0).len(),
            ) + " locations"@) =~= "edit "@ + decimal((k + 1) as nat) + " old_text matched "@
                + decimal(places(original, old, 0).len()) + " locations"@);
        },
        _ => {},
    }
}

} // verus!
