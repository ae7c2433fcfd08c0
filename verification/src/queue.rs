//! The play queue: tracks in play order, the track being played, and the
//! moves between tracks.

use std::collections::HashMap;
use vstd::prelude::*;
use crate::track::{fx_track_hash, TrackInfo};
use crate::text::{
    all_digits, decimal, digit_count, digits_value, hex_digits, hex_fixed, lemma_decimal_spells,
    push_char, push_decimal,
};

verus! {

broadcast use vstd::std_specs::hash::group_hash_axioms;

/// Identifies a track in the queue: the fxhash of its metadata.
#[derive(PartialEq, Eq, Structural, Clone, Copy, Hash, Debug)]
pub struct TrackId(u64);

impl View for TrackId {
    type V = u64;

    closed spec fn view(&self) -> u64 {
        self.0
    }
}

impl TrackId {
    /// The hash value that the id wraps; the key of the track in `Queue::tracks`.
    pub fn value(&self) -> (r: u64)
        ensures
            r == self@,
    {
        self.0
    }
}

/// Why a track could not be started.
#[derive(Debug, PartialEq, Eq, Structural, Clone, Copy)]
pub enum QueueError {
    /// The index is past the end of the queue.
    IndexOutOfBounds,
    /// The queue holds no track under the id at the index.
    TrackMissing,
}

/// What the caller has to do to start the track at `index`: stop `previous`
/// (the player that was playing, now taken out of the queue), start `track`,
/// and hand the new player to `Queue::playing_started`.
pub struct PlayRequest<P> {
    pub index: usize,
    pub track: TrackInfo,
    pub previous: Option<P>,
}

/// The tracks and the playback state of the player. `P` is the handle of a
/// running player; the queue only holds it.
pub struct Queue<P> {
    track_order: Vec<TrackId>,
    tracks: HashMap<u64, TrackInfo>,
    player: Option<P>,
    current_index: Option<usize>,
}

/// `m` with each `ids[i]` mapped to `ts[i]`, in order (a later track under
/// the same id replaces an earlier one).
pub open spec fn insert_all(m: Map<u64, TrackInfo>, ids: Seq<TrackId>, ts: Seq<TrackInfo>) -> Map<
    u64,
    TrackInfo,
>
    decreases ids.len(),
{
    if ids.len() == 0 || ts.len() == 0 {
        m
    } else {
        insert_all(m, ids.drop_last(), ts.drop_last()).insert(ids.last()@, ts.last())
    }
}

/// Every id in `order` names a track of `catalog`, every track of `catalog`
/// is named by an id in `order`, and the current index is below `usize::MAX`.
pub open spec fn parts_wf(
    order: Seq<TrackId>,
    catalog: Map<u64, TrackInfo>,
    current: Option<usize>,
) -> bool {
    &&& forall|i: int| 0 <= i < order.len() ==> catalog.contains_key((#[trigger] order[i])@)
    &&& forall|k: u64|
        #[trigger] catalog.contains_key(k) ==> exists|i: int|
            0 <= i < order.len() && (#[trigger] order[i])@ == k
    &&& current matches Some(i) ==> i < usize::MAX
}

impl<P> Queue<P> {
    /// The ids of the tracks, in play order.
    pub closed spec fn order(&self) -> Seq<TrackId> {
        self.track_order@
    }

    /// The tracks, by the value of their id.
    pub closed spec fn catalog(&self) -> Map<u64, TrackInfo> {
        self.tracks@
    }

    /// The handle of the running player, if any.
    pub closed spec fn playing(&self) -> Option<P> {
        self.player
    }

    /// The index of the track last started, if any.
    pub closed spec fn index(&self) -> Option<usize> {
        self.current_index
    }

    /// The queue's invariant: every id in the order names a track of the
    /// catalog, and every track of the catalog is named by an id in the order.
    #[verifier::type_invariant]
    pub closed spec fn wf(self) -> bool {
        parts_wf(self.track_order@, self.tracks@, self.current_index)
    }

    /// The id of the track at `index`, if the index is in the queue.
    pub open spec fn id_at(&self, index: int) -> Option<TrackId> {
        if 0 <= index < self.order().len() {
            Some(self.order()[index])
        } else {
            None
        }
    }
}

impl<P> Default for Queue<P> {
    fn default() -> (r: Self)
        ensures
            r.order() == Seq::<TrackId>::empty(),
            r.catalog() == Map::<u64, TrackInfo>::empty(),
            r.playing() is None,
            r.index() is None,
    {
        Queue { track_order: Vec::new(), tracks: HashMap::new(), player: None, current_index: None }
    }
}

impl<P> Queue<P> {
    /// The ids of the tracks, in play order.
    pub fn track_order(&self) -> (r: &Vec<TrackId>)
        ensures
            r@ == self.order(),
    {
        &self.track_order
    }

    /// The tracks, keyed by the value of their id.
    pub fn tracks(&self) -> (r: &HashMap<u64, TrackInfo>)
        ensures
            r@ == self.catalog(),
    {
        &self.tracks
    }

    /// The running player, if any.
    pub fn player(&self) -> (r: &Option<P>)
        ensures
            *r == self.playing(),
    {
        &self.player
    }

    /// The index of the track last started, if any.
    pub fn current_index(&self) -> (r: Option<usize>)
        ensures
            r == self.index(),
    {
        self.current_index
    }

    /// Takes the queue apart, leaving an empty one in its place.
    fn take_parts(&mut self) -> (r: (Vec<TrackId>, HashMap<u64, TrackInfo>, Option<P>, Option<usize>))
        ensures
            r.0@ == old(self).order(),
            r.1@ == old(self).catalog(),
            r.2 == old(self).playing(),
            r.3 == old(self).index(),
            parts_wf(r.0@, r.1@, r.3),
    {
        let mut q: Queue<P> = Queue::default();
        std::mem::swap(self, &mut q);
        proof {
            use_type_invariant(&q);
        }
        let Queue { track_order, tracks, player, current_index } = q;
        (track_order, tracks, player, current_index)
    }

    /// Removes every track. The player and the current index stay as they are.
    pub fn clear_tracks(&mut self)
        ensures
            final(self).order() == Seq::<TrackId>::empty(),
            final(self).catalog() == Map::<u64, TrackInfo>::empty(),
            final(self).playing() == old(self).playing(),
            final(self).index() == old(self).index(),
    {
        let (mut track_order, mut tracks, player, current_index) = self.take_parts();
        track_order.clear();
        tracks.clear();
        *self = Queue { track_order, tracks, player, current_index };
    }

    /// Appends `tracks` to the queue, in order, each under the id that its
    /// hash gives.
    pub fn insert_tracks(&mut self, tracks: Vec<TrackInfo>)
        ensures
            final(self).order().len() == old(self).order().len() + tracks@.len(),
            final(self).order().take(old(self).order().len() as int) == old(self).order(),
            final(self).catalog() == insert_all(
                old(self).catalog(),
                final(self).order().skip(old(self).order().len() as int),
                tracks@,
            ),
            final(self).playing() == old(self).playing(),
            final(self).index() == old(self).index(),
    {
        let (mut order, mut map, player, current_index) = self.take_parts();
        let ghost old_order = order@;
        let ghost old_map = map@;
        let ghost input = tracks@;
        let ghost mut new_ids: Seq<TrackId> = Seq::empty();
        for track in it: tracks
            invariant
                it.seq() == input,
                order@ == old_order + new_ids,
                new_ids.len() == it.index(),
                map@ == insert_all(old_map, new_ids, input.take(it.index() as int)),
                parts_wf(order@, map@, current_index),
        {
            let ghost j = it.index() as int;
            let ghost prev_order = order@;
            let ghost prev_map = map@;
            let track_id = TrackId(fx_track_hash(&track));
            assert(input[j] == track);
            map.insert(track_id.0, track);
            order.push(track_id);
            proof {
                let ids2 = new_ids.push(track_id);
                assert(ids2.drop_last() =~= new_ids);
                assert(input.take(j + 1).drop_last() =~= input.take(j));
                new_ids = ids2;
                assert(order@ =~= old_order + new_ids);
                assert forall|i: int| 0 <= i < order@.len() implies map@.contains_key(
                    (#[trigger] order@[i])@,
                ) by {
                    if i < order@.len() - 1 {
                        assert(order@[i] == prev_order[i]);
                        assert(prev_map.contains_key(prev_order[i]@));
                    }
                }
                assert forall|k: u64| #[trigger] map@.contains_key(k) implies exists|i: int|
                    0 <= i < order@.len() && (#[trigger] order@[i])@ == k by {
                    let last = order@.len() - 1;
                    if k == track_id@ {
                        assert(order@[last]@ == k);
                    } else {
                        assert(prev_map.contains_key(k));
                        let i = choose|i: int|
                            0 <= i < prev_order.len() && (#[trigger] prev_order[i])@ == k;
                        assert(order@[i] == prev_order[i]);
                    }
                }
            }
        }
        assert(input.take(input.len() as int) =~= input);
        assert(order@.take(old_order.len() as int) =~= old_order);
        assert(order@.skip(old_order.len() as int) =~= new_ids);
        *self = Queue { track_order: order, tracks: map, player, current_index };
    }
}


impl<P> Queue<P> {
    /// Takes the first step of playing the track at `index`: checks the
    /// index, takes the running player out of the queue (the caller stops
    /// it) and hands back a copy of the track to start. Once the new player
    /// runs, the caller records it with `playing_started`.
    pub fn play_at(&mut self, index: usize) -> (r: Result<PlayRequest<P>, QueueError>)
        ensures
            final(self).order() == old(self).order(),
            final(self).catalog() == old(self).catalog(),
            final(self).index() == old(self).index(),
            r is Ok <==> index < old(self).order().len(),
            match r {
                Ok(req) => {
                    &&& req.index == index
                    &&& req.track@ == old(self).catalog()[old(self).order()[index as int]@]@
                    &&& req.previous == old(self).playing()
                    &&& final(self).playing() is None
                },
                Err(e) => {
                    &&& e == QueueError::IndexOutOfBounds
                    &&& final(self).playing() == old(self).playing()
                },
            },
    {
        proof {
            use_type_invariant(&*self);
        }
        if index >= self.track_order.len() {
            return Err(QueueError::IndexOutOfBounds);
        }
        let id = self.track_order[index];
        assert(self.tracks@.contains_key(self.track_order@[index as int]@));
        let track = match self.tracks.get(&id.0) {
            Some(t) => t.clone(),
            None => {
                return Err(QueueError::TrackMissing);
            },
        };
        let mut previous: Option<P> = None;
        std::mem::swap(&mut previous, &mut self.player);
        Ok(PlayRequest { index, track, previous })
    }

    /// Records that the track at `index` now plays on `player`.
    pub fn playing_started(&mut self, index: usize, player: P)
        requires
            index < old(self).order().len(),
        ensures
            final(self).order() == old(self).order(),
            final(self).catalog() == old(self).catalog(),
            final(self).playing() == Some(player),
            final(self).index() == Some(index),
    {
        proof {
            use_type_invariant(&*self);
        }
        let n = self.track_order.len();
        assert(index < n);
        self.player = Some(player);
        self.current_index = Some(index);
    }

    /// `play_at` for `index`, or for the last track where `index` is past it.
    pub fn play_at_clamped(&mut self, index: usize) -> (r: Result<PlayRequest<P>, QueueError>)
        ensures
            final(self).order() == old(self).order(),
            final(self).catalog() == old(self).catalog(),
            final(self).index() == old(self).index(),
            r is Ok <==> old(self).order().len() > 0,
            match r {
                Ok(req) => {
                    &&& req.index == (if index < old(self).order().len() {
                        index as int
                    } else {
                        old(self).order().len() - 1
                    })
                    &&& req.track@ == old(self).catalog()[old(self).order()[req.index as int]@]@
                    &&& req.previous == old(self).playing()
                    &&& final(self).playing() is None
                },
                Err(e) => {
                    &&& e == QueueError::IndexOutOfBounds
                    &&& final(self).playing() == old(self).playing()
                },
            },
    {
        let last = self.track_order.len().saturating_sub(1);
        let target = if index < last {
            index
        } else {
            last
        };
        self.play_at(target)
    }

    /// Moves on after the current track: where a next track exists, its index
    /// is returned (the caller plays it with `play_at`) and nothing changes;
    /// otherwise the player is dropped, the current index cleared, and `None`
    /// returned. With no current track, the next track is the first.
    pub fn play_next(&mut self) -> (r: Option<usize>)
        ensures
            final(self).order() == old(self).order(),
            final(self).catalog() == old(self).catalog(),
            ({
                let next: int = match old(self).index() {
                    Some(i) => i + 1,
                    None => 0,
                };
                if next < old(self).order().len() {
                    &&& r == Some(next as usize)
                    &&& final(self).playing() == old(self).playing()
                    &&& final(self).index() == old(self).index()
                } else {
                    &&& r is None
                    &&& final(self).playing() is None
                    &&& final(self).index() is None
                }
            }),
    {
        proof {
            use_type_invariant(&*self);
        }
        let next: usize = match self.current_index {
            Some(i) => i + 1,
            None => 0,
        };
        if next < self.track_order.len() {
            Some(next)
        } else {
            self.player = None;
            self.current_index = None;
            None
        }
    }

    /// The index to go back to: the one before the current track, where
    /// there is a current track and it is not the first.
    pub fn play_previous(&self) -> (r: Option<usize>)
        ensures
            r == match self.index() {
                Some(i) => if i > 0 {
                    Some((i - 1) as usize)
                } else {
                    None
                },
                None => None,
            },
    {
        match self.current_index {
            Some(i) => if i > 0 {
                Some(i - 1)
            } else {
                None
            },
            None => None,
        }
    }

    /// The id at the current index, where the index is in the queue.
    pub fn currently_playing(&self) -> (r: Option<&TrackId>)
        ensures
            match self.index() {
                Some(i) => match self.id_at(i as int) {
                    Some(id) => r is Some && *r.unwrap() == id,
                    None => r is None,
                },
                None => r is None,
            },
    {
        let idx = match self.current_index {
            Some(i) => i,
            None => {
                return None;
            },
        };
        if idx < self.track_order.len() {
            Some(&self.track_order[idx])
        } else {
            None
        }
    }

    /// The track at the current index, where the index is in the queue.
    pub fn currently_playing_info(&self) -> (r: Option<&TrackInfo>)
        ensures
            match self.index() {
                Some(i) => match self.id_at(i as int) {
                    Some(id) => r is Some && *r.unwrap() == self.catalog()[id@],
                    None => r is None,
                },
                None => r is None,
            },
    {
        let id = match self.currently_playing() {
            Some(id) => id,
            None => {
                return None;
            },
        };
        proof {
            use_type_invariant(self);
        }
        let ghost i = self.current_index.unwrap() as int;
        assert(self.tracks@.contains_key(self.track_order@[i]@));
        self.tracks.get(&id.0)
    }
}

/// The first seven digits of the 16-digit lower-case hex form of `id`.
pub open spec fn short_hash(id: u64) -> Seq<char> {
    hex_fixed(id as nat, 16).take(7)
}

/// The line that lists the track at `index`.
pub open spec fn listing_line(index: nat, title: Seq<char>, id: u64, is_current: bool) -> Seq<
    char,
> {
    "  "@ + decimal(index + 1) + ". "@ + title + " ("@ + short_hash(id) + ")"@ + (if is_current {
        " [PLAYING]"@
    } else {
        Seq::<char>::empty()
    }) + "\n"@
}

/// The lines that list the first `n` tracks of the order; ids that name no
/// track are left out.
pub open spec fn listing(
    order: Seq<TrackId>,
    catalog: Map<u64, TrackInfo>,
    current: Option<usize>,
    n: int,
) -> Seq<char>
    decreases n,
{
    if n <= 0 {
        Seq::<char>::empty()
    } else {
        listing(order, catalog, current, n - 1) + (if catalog.contains_key(order[n - 1]@) {
            listing_line(
                (n - 1) as nat,
                catalog[order[n - 1]@].title@,
                order[n - 1]@,
                current == Some((n - 1) as usize),
            )
        } else {
            Seq::<char>::empty()
        })
    }
}

/// The text of a queue: a header with the number of tracks, then one line per track.
pub open spec fn queue_text(
    order: Seq<TrackId>,
    catalog: Map<u64, TrackInfo>,
    current: Option<usize>,
) -> Seq<char> {
    "Queue ("@ + decimal(order.len()) + " tracks):\n"@ + listing(
        order,
        catalog,
        current,
        order.len() as int,
    )
}

impl<P> Queue<P> {
    /// The queue as text: `Queue (N tracks):`, then for each track a line
    /// `  i. Title (hash)`, with ` [PLAYING]` after the current one.
    pub fn to_display_string(&self) -> (r: String)
        ensures
            r@ == queue_text(self.order(), self.catalog(), self.index()),
    {
        let len = self.track_order.len();
        let mut s = String::new();
        s.append("Queue (");
        push_decimal(&mut s, len as u128);
        s.append(" tracks):\n");
        let ghost header = s@;
        let mut i: usize = 0;
        while i < len
            invariant
                len == self.track_order@.len(),
                i <= len,
                header == "Queue ("@ + decimal(len as nat) + " tracks):\n"@,
                s@ == header + listing(self.track_order@, self.tracks@, self.current_index, i as int),
            decreases len - i,
        {
            let ghost before = s@;
            let id = self.track_order[i];
            match self.tracks.get(&id.0) {
                Some(track) => {
                    s.append("  ");
                    push_decimal(&mut s, (i as u128) + 1);
                    s.append(". ");
                    s.append(track.title.as_str());
                    s.append(" (");
                    let hex = hex_digits(id.0, 16);
                    let mut k: usize = 0;
                    let ghost mid = s@;
                    while k < 7
                        invariant
                            k <= 7,
                            hex@ == hex_fixed(id@ as nat, 16),
                            s@ == mid + hex@.take(k as int),
                        decreases 7 - k,
                    {
                        assert(hex@.len() == 16) by {
                            lemma_hex_fixed_len(id@ as nat, 16);
                        }
                        push_char(&mut s, hex[k]);
                        assert(hex@.take(k + 1) =~= hex@.take(k as int).push(hex@[k as int]));
                        k += 1;
                    }
                    s.append(")");
                    if self.current_index == Some(i) {
                        s.append(" [PLAYING]");
                    }
                    s.append("\n");
                },
                None => {},
            }
            proof {
                let l = listing(self.track_order@, self.tracks@, self.current_index, i + 1);
                assert(s@ =~= header + l);
            }
            i += 1;
        }
        s
    }
}

/// `hex_fixed` has as many digits as its width.
pub proof fn lemma_hex_fixed_len(v: nat, width: nat)
    ensures
        hex_fixed(v, width).len() == width,
    decreases width,
{
    if width > 0 {
        lemma_hex_fixed_len(v / 16, (width - 1) as nat);
    }
}


/// After `insert_tracks`, a track is found under the id it was given, unless
/// a later track of the same call was given the same id.
pub proof fn lemma_insert_all_finds(
    m: Map<u64, TrackInfo>,
    ids: Seq<TrackId>,
    ts: Seq<TrackInfo>,
    i: int,
)
    requires
        ids.len() == ts.len(),
        0 <= i < ids.len(),
        forall|j: int| i < j < ids.len() ==> (#[trigger] ids[j])@ != ids[i]@,
    ensures
        insert_all(m, ids, ts).contains_key(ids[i]@),
        insert_all(m, ids, ts)[ids[i]@] == ts[i],
    decreases ids.len(),
{
    if i < ids.len() - 1 {
        let ids2 = ids.drop_last();
        let ts2 = ts.drop_last();
        assert forall|j: int| i < j < ids2.len() implies (#[trigger] ids2[j])@ != ids2[i]@ by {
            assert(ids2[j] == ids[j]);
        }
        lemma_insert_all_finds(m, ids2, ts2, i);
        assert(ids.last() == ids[ids.len() - 1]);
    }
}

/// `insert_tracks` leaves alone the tracks under ids that it did not give.
pub proof fn lemma_insert_all_keeps(
    m: Map<u64, TrackInfo>,
    ids: Seq<TrackId>,
    ts: Seq<TrackInfo>,
    k: u64,
)
    requires
        ids.len() == ts.len(),
        forall|j: int| 0 <= j < ids.len() ==> (#[trigger] ids[j])@ != k,
    ensures
        insert_all(m, ids, ts).contains_key(k) == m.contains_key(k),
        m.contains_key(k) ==> insert_all(m, ids, ts)[k] == m[k],
    decreases ids.len(),
{
    if ids.len() > 0 {
        let ids2 = ids.drop_last();
        assert forall|j: int| 0 <= j < ids2.len() implies (#[trigger] ids2[j])@ != k by {
            assert(ids2[j] == ids[j]);
        }
        lemma_insert_all_keeps(m, ids2, ts.drop_last(), k);
        assert(ids.last() == ids[ids.len() - 1]);
    }
}


/// The catalog holds no more tracks than the order holds ids: every track of
/// the catalog is named by an id in the order.
pub proof fn lemma_catalog_within_order<P>(q: Queue<P>)
    requires
        q.wf(),
    ensures
        q.catalog().dom().finite(),
        q.catalog().len() <= q.order().len(),
        forall|k: u64| #[trigger] q.catalog().contains_key(k) ==> exists|i: int|
            0 <= i < q.order().len() && (#[trigger] q.order()[i])@ == k,
{
    let keys = q.order().map_values(|id: TrackId| id@);
    assert forall|k: u64| q.catalog().dom().contains(k) implies keys.to_set().contains(k) by {
        let i = choose|i: int| 0 <= i < q.order().len() && (#[trigger] q.order()[i])@ == k;
        assert(keys[i] == k);
    }
    keys.lemma_cardinality_of_set();
    vstd::set_lib::lemma_len_subset(q.catalog().dom(), keys.to_set());
}


/// The line of the track at position `index` reads two spaces, then the
/// track's number `index + 1` in decimal digits (as many as it takes), then
/// `. ` and the title.
pub proof fn lemma_listing_line_number(index: nat, title: Seq<char>, id: u64, is_current: bool)
    ensures
        ({
            let l = listing_line(index, title, id, is_current);
            let k = digit_count(index + 1) as int;
            &&& l.take(2) == seq![' ', ' ']
            &&& all_digits(l.subrange(2, 2 + k))
            &&& digits_value(l.subrange(2, 2 + k)) == index + 1
            &&& l.subrange(2 + k, 4 + k) == seq!['.', ' ']
            &&& l.subrange(4 + k, 4 + k + title.len()) == title
        }),
{
    reveal_strlit("  ");
    reveal_strlit(". ");
    let l = listing_line(index, title, id, is_current);
    let d = decimal(index + 1);
    let k = digit_count(index + 1) as int;
    lemma_decimal_spells(index + 1);
    assert("  "@ =~= seq![' ', ' ']);
    assert(". "@ =~= seq!['.', ' ']);
    let front = "  "@ + d + ". "@ + title;
    assert(l == front + (l.skip(front.len() as int))) by {
        assert(l =~= front + l.skip(front.len() as int));
    }
    assert(l.take(2) =~= seq![' ', ' ']);
    assert(l.subrange(2, 2 + k) =~= d);
    assert(l.subrange(2 + k, 4 + k) =~= seq!['.', ' ']);
    assert(l.subrange(4 + k, 4 + k + title.len()) =~= title);
}

/// The queue's text begins `Queue (`, then the number of ids in the order in
/// decimal digits (as many as it takes), then ` tracks):`.
pub proof fn lemma_queue_text_header(
    order: Seq<TrackId>,
    catalog: Map<u64, TrackInfo>,
    current: Option<usize>,
)
    ensures
        ({
            let t = queue_text(order, catalog, current);
            let k = digit_count(order.len()) as int;
            &&& t.take(7) == seq!['Q', 'u', 'e', 'u', 'e', ' ', '(']
            &&& all_digits(t.subrange(7, 7 + k))
            &&& digits_value(t.subrange(7, 7 + k)) == order.len()
            &&& t.subrange(7 + k, 17 + k) == seq![' ', 't', 'r', 'a', 'c', 'k', 's', ')', ':', '\n']
        }),
{
    reveal_strlit("Queue (");
    reveal_strlit(" tracks):\n");
    let t = queue_text(order, catalog, current);
    let d = decimal(order.len());
    let k = digit_count(order.len()) as int;
    lemma_decimal_spells(order.len());
    assert("Queue ("@ =~= seq!['Q', 'u', 'e', 'u', 'e', ' ', '(']);
    assert(" tracks):\n"@ =~= seq![' ', 't', 'r', 'a', 'c', 'k', 's', ')', ':', '\n']);
    assert(t.take(7) =~= seq!['Q', 'u', 'e', 'u', 'e', ' ', '(']);
    assert(t.subrange(7, 7 + k) =~= d);
    assert(t.subrange(7 + k, 17 + k) =~= seq![' ', 't', 'r', 'a', 'c', 'k', 's', ')', ':', '\n']);
}

} // verus!
