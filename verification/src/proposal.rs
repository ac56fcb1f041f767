//! What goes into a batch: the transmissions drained from the workers, put
//! together so that each id occurs once.

use crate::batch::{ids_of, transmission_views, BatchHeaderView, Transmission, TransmissionView};
use crate::ordered_map::{
    from_transmission_key, has_key, holds_transmission, insert_transmission, key_transmission,
    new_transmission_map, payload_views, to_transmission_key, transmission_entries,
    transmission_key, transmission_pairs, TransmissionKey,
};
use crate::types::{Address, Field, Signature, TransmissionId};
use indexmap::IndexMap;
use std::hash::RandomState;
use vstd::prelude::*;

verus! {

/// The lists of `lists` one after the other.
pub open spec fn concat_all(lists: Seq<Seq<TransmissionView>>) -> Seq<TransmissionView>
    decreases lists.len(),
{
    if lists.len() == 0 {
        Seq::empty()
    } else {
        concat_all(lists.drop_last()) + lists.last()
    }
}

/// Whether a transmission with this id is in `transmissions`.
pub open spec fn has_id(transmissions: Seq<TransmissionView>, id: TransmissionId) -> bool {
    exists|i: int| 0 <= i < transmissions.len() && (#[trigger] transmissions[i]).id == id
}

/// `transmissions` without those whose id occurred before: of transmissions
/// with the same id the first stays, at its place in the order.
pub open spec fn first_occurrences(transmissions: Seq<TransmissionView>) -> Seq<TransmissionView>
    decreases transmissions.len(),
{
    if transmissions.len() == 0 {
        Seq::empty()
    } else {
        let earlier = first_occurrences(transmissions.drop_last());
        if has_id(transmissions.drop_last(), transmissions.last().id) {
            earlier
        } else {
            earlier.push(transmissions.last())
        }
    }
}

/// The lists that the workers handed over, as sequences.
pub open spec fn drained_views(drained: Seq<Vec<Transmission>>) -> Seq<Seq<TransmissionView>> {
    drained.map_values(|list: Vec<Transmission>| transmission_views(list@))
}

/// The first occurrences hold the same ids as the whole.
pub proof fn lemma_first_occurrences_ids(transmissions: Seq<TransmissionView>)
    ensures
        forall|id: TransmissionId|
            #![trigger has_id(first_occurrences(transmissions), id)]
            #![trigger has_id(transmissions, id)]
            has_id(first_occurrences(transmissions), id) <==> has_id(transmissions, id),
    decreases transmissions.len(),
{
    if transmissions.len() > 0 {
        let rest = transmissions.drop_last();
        let last = transmissions.last();
        lemma_first_occurrences_ids(rest);
        let kept = first_occurrences(transmissions);
        let inner = first_occurrences(rest);
        assert forall|id: TransmissionId|
            #![trigger has_id(kept, id)]
            #![trigger has_id(transmissions, id)]
            has_id(kept, id) <==> has_id(transmissions, id) by {
            if has_id(kept, id) {
                let k = choose|k: int| 0 <= k < kept.len() && (#[trigger] kept[k]).id == id;
                if k < inner.len() {
                    assert(inner[k].id == id);
                    assert(has_id(rest, id));
                    let m = choose|m: int| 0 <= m < rest.len() && (#[trigger] rest[m]).id == id;
                    assert(transmissions[m].id == id);
                } else {
                    assert(transmissions[transmissions.len() - 1].id == id);
                }
            }
            if has_id(transmissions, id) {
                let m = choose|m: int|
                    0 <= m < transmissions.len() && (#[trigger] transmissions[m]).id == id;
                if m < rest.len() {
                    assert(rest[m].id == id);
                    assert(has_id(rest, id));
                    assert(has_id(inner, id));
                    let k = choose|k: int| 0 <= k < inner.len() && (#[trigger] inner[k]).id == id;
                    assert(kept[k].id == id);
                } else {
                    assert(transmissions[m] == last);
                    if has_id(rest, last.id) {
                        assert(has_id(rest, id));
                        assert(has_id(inner, id));
                        let k = choose|k: int|
                            0 <= k < inner.len() && (#[trigger] inner[k]).id == id;
                        assert(kept[k].id == id);
                    } else {
                        assert(kept[kept.len() - 1].id == id);
                    }
                }
            }
        }
    }
}

/// Among the first occurrences no id occurs twice.
pub proof fn lemma_first_occurrences_distinct(transmissions: Seq<TransmissionView>)
    ensures
        forall|i: int, j: int|
            0 <= i < first_occurrences(transmissions).len() && 0 <= j < first_occurrences(
                transmissions,
            ).len() && i != j ==> (#[trigger] first_occurrences(transmissions)[i]).id != (
            #[trigger] first_occurrences(transmissions)[j]).id,
    decreases transmissions.len(),
{
    if transmissions.len() > 0 {
        let rest = transmissions.drop_last();
        let last = transmissions.last();
        lemma_first_occurrences_distinct(rest);
        lemma_first_occurrences_ids(rest);
        let kept = first_occurrences(transmissions);
        let inner = first_occurrences(rest);
        assert forall|i: int, j: int|
            0 <= i < kept.len() && 0 <= j < kept.len() && i != j implies (#[trigger] kept[i]).id
            != (#[trigger] kept[j]).id by {
            if has_id(rest, last.id) {
                assert(kept == inner);
            } else {
                assert(kept == inner.push(last));
                if i < inner.len() && j < inner.len() {
                    assert(kept[i] == inner[i] && kept[j] == inner[j]);
                } else {
                    let other = if i < inner.len() { i } else { j };
                    assert(kept[other] == inner[other]);
                    if inner[other].id == last.id {
                        assert(has_id(inner, last.id));
                        assert(has_id(rest, last.id));
                    }
                }
            }
        }
    }
}

/// Of transmissions with the same id the first stays: each of the first
/// occurrences is the earliest transmission with its id.
pub proof fn lemma_first_occurrences_are_first(transmissions: Seq<TransmissionView>, k: int)
    requires
        0 <= k < first_occurrences(transmissions).len(),
    ensures
        exists|m: int|
            0 <= m < transmissions.len() && #[trigger] transmissions[m] == first_occurrences(
                transmissions,
            )[k] && !has_id(transmissions.take(m), transmissions[m].id),
    decreases transmissions.len(),
{
    let rest = transmissions.drop_last();
    let last = transmissions.last();
    let kept = first_occurrences(transmissions);
    let inner = first_occurrences(rest);
    if k < inner.len() {
        assert(kept[k] == inner[k]);
        lemma_first_occurrences_are_first(rest, k);
        let m = choose|m: int|
            0 <= m < rest.len() && #[trigger] rest[m] == inner[k] && !has_id(
                rest.take(m),
                rest[m].id,
            );
        assert(transmissions[m] == rest[m]);
        assert(transmissions.take(m) =~= rest.take(m));
    } else {
        let m = transmissions.len() - 1;
        assert(transmissions[m] == kept[k]);
        assert(transmissions.take(m) =~= rest);
    }
}

/// The transmissions that the entries of a map stand for.
pub open spec fn entry_views(entries: Seq<(TransmissionKey, Seq<u8>)>) -> Seq<TransmissionView> {
    entries.map_values(
        |entry: (TransmissionKey, Seq<u8>)|
            TransmissionView { id: key_transmission(entry.0), payload: entry.1 },
    )
}

/// Puts the transmissions that the workers handed over into one list, worker
/// by worker in the order given. Of transmissions with the same id the first
/// stays.
pub fn union_transmissions(drained: &Vec<Vec<Transmission>>) -> (united: Vec<Transmission>)
    ensures
        transmission_views(united@) == first_occurrences(concat_all(drained_views(drained@))),
{
    let ghost lists = drained_views(drained@);
    let mut map: IndexMap<TransmissionKey, Vec<u8>, RandomState> = new_transmission_map();
    let mut w: usize = 0;
    assert(entry_views(transmission_entries(map)) =~= first_occurrences(
        concat_all(lists.take(0)),
    ));
    while w < drained.len()
        invariant
            0 <= w <= drained.len(),
            lists == drained_views(drained@),
            entry_views(transmission_entries(map)) == first_occurrences(
                concat_all(lists.take(w as int)),
            ),
            forall|k: int|
                0 <= k < transmission_entries(map).len() ==> (#[trigger] transmission_entries(
                    map,
                )[k]).0 == transmission_key(key_transmission(transmission_entries(map)[k].0)),
        decreases drained.len() - w,
    {
        let list: &Vec<Transmission> = &drained[w];
        let ghost done = concat_all(lists.take(w as int));
        let ghost views = transmission_views(list@);
        assert(lists[w as int] == views);
        let mut j: usize = 0;
        assert(done + views.take(0) =~= done);
        while j < list.len()
            invariant
                0 <= j <= list.len(),
                views == transmission_views(list@),
                entry_views(transmission_entries(map)) == first_occurrences(
                    done + views.take(j as int),
                ),
                forall|k: int|
                    0 <= k < transmission_entries(map).len() ==> (#[trigger] transmission_entries(
                        map,
                    )[k]).0 == transmission_key(key_transmission(transmission_entries(map)[k].0)),
            decreases list.len() - j,
        {
            let ghost seen = done + views.take(j as int);
            let ghost entries = transmission_entries(map);
            let key: TransmissionKey = to_transmission_key(&list[j].id);
            proof {
                assert(done + views.take(j + 1) =~= seen.push(views[j as int]));
                assert(seen.push(views[j as int]).drop_last() =~= seen);
                lemma_first_occurrences_ids(seen);
                let id = list@[j as int].id;
                if has_key(entries, key) {
                    let k = choose|k: int| 0 <= k < entries.len() && #[trigger] entries[k].0 == key;
                    assert(entry_views(entries)[k].id == id);
                    assert(has_id(first_occurrences(seen), id));
                }
                if has_id(seen, id) {
                    let k = choose|k: int|
                        0 <= k < first_occurrences(seen).len() && (#[trigger] first_occurrences(
                            seen,
                        )[k]).id == id;
                    assert(entry_views(entries)[k].id == key_transmission(entries[k].0));
                    assert(entries[k].0 == key);
                }
            }
            if !holds_transmission(&map, &key) {
                let payload: Vec<u8> = list[j].payload.clone();
                assert(payload@ =~= list@[j as int].payload@);
                insert_transmission(&mut map, key, payload);
                proof {
                    let after = transmission_entries(map);
                    assert(after == entries.push((key, list@[j as int].payload@)));
                    assert(entry_views(after) =~= entry_views(entries).push(views[j as int]));
                    assert forall|k: int| 0 <= k < after.len() implies (#[trigger] after[k]).0
                        == transmission_key(key_transmission(after[k].0)) by {
                        if k < entries.len() {
                            assert(after[k] == entries[k]);
                        }
                    }
                }
            }
            j += 1;
        }
        proof {
            assert(views.take(views.len() as int) =~= views);
            assert(lists.take(w + 1).drop_last() =~= lists.take(w as int));
            assert(lists.take(w + 1).last() == views);
        }
        w += 1;
    }
    assert(lists.take(lists.len() as int) =~= lists);
    let ghost entries = transmission_entries(map);
    let pairs: Vec<(TransmissionKey, Vec<u8>)> = transmission_pairs(map);
    let mut united: Vec<Transmission> = Vec::new();
    let mut i: usize = 0;
    assert(payload_views(pairs@).len() == pairs@.len());
    while i < pairs.len()
        invariant
            0 <= i <= pairs.len(),
            payload_views(pairs@) == entries,
            united@.len() == i,
            forall|k: int| 0 <= k < i ==> (#[trigger] united@[k])@ == entry_views(entries)[k],
        decreases pairs.len() - i,
    {
        let payload: Vec<u8> = pairs[i].1.clone();
        assert(payload@ =~= pairs@[i as int].1@);
        assert(payload_views(pairs@)[i as int] == (pairs@[i as int].0, pairs@[i as int].1@));
        united.push(Transmission { id: from_transmission_key(&pairs[i].0), payload });
        i += 1;
    }
    assert(transmission_views(united@) =~= entry_views(entries));
    united
}

/// What a batch will hold and the id that derives from it, before the author
/// has signed.
#[derive(Debug, PartialEq, Eq)]
pub struct BatchDraft {
    pub batch_id: Field,
    pub author: Address,
    pub round: u64,
    pub timestamp: i64,
    pub committee_id: Field,
    pub transmissions: Vec<Transmission>,
    pub previous_certificate_ids: Vec<Field>,
}

/// A draft, its lists as sequences.
#[verifier::ext_equal]
pub struct BatchDraftView {
    pub batch_id: Field,
    pub author: Address,
    pub round: u64,
    pub timestamp: i64,
    pub committee_id: Field,
    pub transmissions: Seq<TransmissionView>,
    pub previous_certificate_ids: Seq<Field>,
}

impl BatchDraftView {
    /// The header that the draft makes with the author's `signature`.
    pub open spec fn header(self, signature: Signature) -> BatchHeaderView {
        BatchHeaderView {
            batch_id: self.batch_id,
            author: self.author,
            round: self.round,
            timestamp: self.timestamp,
            committee_id: self.committee_id,
            transmission_ids: ids_of(self.transmissions),
            previous_certificate_ids: self.previous_certificate_ids,
            signature,
        }
    }
}

impl View for BatchDraft {
    type V = BatchDraftView;

    open spec fn view(&self) -> BatchDraftView {
        BatchDraftView {
            batch_id: self.batch_id,
            author: self.author,
            round: self.round,
            timestamp: self.timestamp,
            committee_id: self.committee_id,
            transmissions: transmission_views(self.transmissions@),
            previous_certificate_ids: self.previous_certificate_ids@,
        }
    }
}

} // verus!
