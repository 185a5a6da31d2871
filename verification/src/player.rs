//! The player's registry of loaded clips. Each clip is known by an id;
//! the ids of removed clips are kept and handed out again, last removed
//! first, before new ids are taken from a counter.

use crate::config::{lemma_listed_values, lists_values, values_of};
use crate::script::{icon_after_toggle, toggled_icon, Icon};
use std::collections::HashMap;
use vstd::prelude::*;

verus! {

broadcast use vstd::std_specs::hash::group_hash_axioms;

/// The registry seen as values: the next id of the counter, the clips by
/// id, and the ids free for reuse (the last one is handed out first).
pub struct PlayerState<C> {
    pub next: usize,
    pub clips: Map<usize, C>,
    pub free: Seq<usize>,
}

impl<C> PlayerState<C> {
    /// Every id in use or free was taken from the counter, no free id is
    /// in use, and no id is free twice.
    pub open spec fn wf(self) -> bool {
        &&& forall|k: usize| #[trigger] self.clips.contains_key(k) ==> k < self.next
        &&& forall|i: int|
            0 <= i < self.free.len() ==> #[trigger] self.free[i] < self.next
                && !self.clips.contains_key(self.free[i])
        &&& self.free.no_duplicates()
    }

    /// An id can be handed out: one is free, or the counter has not reached
    /// its end.
    pub open spec fn can_allocate(self) -> bool {
        self.free.len() > 0 || self.next < usize::MAX
    }

    /// The id handed out next.
    pub open spec fn fresh_id(self) -> usize {
        if self.free.len() > 0 {
            self.free.last()
        } else {
            self.next
        }
    }

    /// The registry after an id was handed out.
    pub open spec fn allocated(self) -> Self {
        if self.free.len() > 0 {
            PlayerState { free: self.free.drop_last(), ..self }
        } else {
            PlayerState { next: (self.next + 1) as usize, ..self }
        }
    }

    /// A clip may be stored under `id`: the id was handed out, is not free,
    /// and holds no clip yet.
    pub open spec fn may_insert(self, id: usize) -> bool {
        id < self.next && !self.free.contains(id) && !self.clips.contains_key(id)
    }

    /// The registry after `clip` was stored under `id`.
    pub open spec fn inserted(self, id: usize, clip: C) -> Self {
        PlayerState { clips: self.clips.insert(id, clip), ..self }
    }

    /// The registry after the clip of `id`, where there is one, was removed
    /// and its id freed.
    pub open spec fn removed(self, id: usize) -> Self {
        if self.clips.contains_key(id) {
            PlayerState { clips: self.clips.remove(id), free: self.free.push(id), ..self }
        } else {
            self
        }
    }
}

/// What the player asks of a clip: playback on a primary and a secondary
/// output device.
pub trait Playback {
    /// An output device.
    type Device;

    /// Starts playing.
    fn play(&self);

    /// Plays again from the start.
    fn restart(&self);

    /// Stops playing.
    fn stop(&self);

    /// Whether the clip plays on either device.
    fn is_playing(&self) -> bool;

    /// Plays on `device` as the primary device.
    fn set_primary_device(&self, device: &Self::Device);

    /// Plays on `device` as the secondary device.
    fn set_secondary_device(&self, device: &Self::Device);
}

/// The clips of the player, by id.
pub struct Player<C> {
    id: usize,
    clips: HashMap<usize, C>,
    tombstones: Vec<usize>,
}

impl<C> View for Player<C> {
    type V = PlayerState<C>;

    closed spec fn view(&self) -> PlayerState<C> {
        PlayerState { next: self.id, clips: self.clips@, free: self.tombstones@ }
    }
}

impl<C> Player<C> {
    /// Every player is well formed.
    #[verifier::type_invariant]
    pub open spec fn well_formed(&self) -> bool {
        self@.wf()
    }

    /// A player without clips, whose first id is 0.
    pub fn new() -> (p: Player<C>)
        ensures
            p@ == (PlayerState::<C> { next: 0, clips: Map::empty(), free: Seq::empty() }),
            p@.wf(),
    {
        Player { id: 0, clips: HashMap::new(), tombstones: Vec::new() }
    }

    /// Whether an id can be handed out.
    pub fn can_allocate(&self) -> (b: bool)
        ensures
            b == self@.can_allocate(),
    {
        self.tombstones.len() > 0 || self.id < usize::MAX
    }

    /// Hands out the id of a clip about to be loaded: the id freed last, or
    /// else the next id of the counter.
    pub fn allocate_id(&mut self) -> (id: usize)
        requires
            old(self)@.can_allocate(),
        ensures
            id == old(self)@.fresh_id(),
            final(self)@ == old(self)@.allocated(),
            final(self)@.wf(),
            !final(self)@.clips.contains_key(id),
            final(self)@.may_insert(id),
    {
        proof {
            use_type_invariant(&*self);
            lemma_fresh_id_is_unused(self@);
        }
        let mut free: Vec<usize> = Vec::new();
        std::mem::swap(&mut free, &mut self.tombstones);
        match free.pop() {
            Some(id) => {
                assert(old(self)@.free[old(self)@.free.len() - 1] == id);
                proof {
                    lemma_drop_last_keeps_no_duplicates(old(self)@.free);
                }
                self.tombstones = free;
                id
            },
            None => {
                self.tombstones = free;
                let id = self.id;
                self.id = self.id + 1;
                id
            },
        }
    }

    /// Whether a clip may be stored under `id`.
    pub fn may_insert(&self, id: usize) -> (b: bool)
        ensures
            b == self@.may_insert(id),
    {
        if id >= self.id || self.clips.contains_key(&id) {
            return false;
        }
        let mut i: usize = 0;
        while i < self.tombstones.len()
            invariant
                i <= self.tombstones@.len(),
                forall|j: int| 0 <= j < i ==> self.tombstones@[j] != id,
            decreases self.tombstones@.len() - i,
        {
            if self.tombstones[i] == id {
                return false;
            }
            i = i + 1;
        }
        true
    }

    /// Stores a loaded clip under the id that was handed out for it.
    pub fn insert_clip(&mut self, id: usize, clip: C)
        requires
            old(self)@.may_insert(id),
        ensures
            final(self)@ == old(self)@.inserted(id, clip),
            final(self)@.wf(),
    {
        proof {
            use_type_invariant(&*self);
        }
        let mut clips: HashMap<usize, C> = HashMap::new();
        std::mem::swap(&mut clips, &mut self.clips);
        clips.insert(id, clip);
        assert forall|i: int| 0 <= i < old(self)@.free.len() implies old(self)@.free[i] != id by {
            if old(self)@.free[i] == id {
                assert(old(self)@.free.contains(id));
            }
        }
        assert(self.id == old(self)@.next && self.tombstones@ == old(self)@.free);
        assert(clips@ == old(self)@.clips.insert(id, clip));
        assert(old(self)@.inserted(id, clip).wf());
        self.clips = clips;
    }

    /// Removes the clip of `id` and frees its id; does nothing where no clip
    /// has that id.
    pub fn remove(&mut self, id: usize) -> (removed: Option<C>)
        ensures
            final(self)@ == old(self)@.removed(id),
            final(self)@.wf(),
            removed == (if old(self)@.clips.contains_key(id) {
                Some(old(self)@.clips[id])
            } else {
                None
            }),
    {
        proof {
            use_type_invariant(&*self);
        }
        let mut clips: HashMap<usize, C> = HashMap::new();
        std::mem::swap(&mut clips, &mut self.clips);
        let removed = clips.remove(&id);
        assert(clips@ == old(self)@.clips.remove(id));
        self.clips = clips;
        if removed.is_some() {
            proof {
                assert(old(self)@.clips.contains_key(id));
                if old(self)@.free.contains(id) {
                    let i = choose|i: int| 0 <= i < old(self)@.free.len() && old(self)@.free[i] == id;
                    assert(!old(self)@.clips.contains_key(old(self)@.free[i]));
                }
                lemma_push_fresh_keeps_no_duplicates(old(self)@.free, id);
            }
            let mut free: Vec<usize> = Vec::new();
            std::mem::swap(&mut free, &mut self.tombstones);
            free.push(id);
            self.tombstones = free;
        } else {
            assert(self.clips@ =~= old(self)@.clips);
        }
        removed
    }

    /// Whether a clip has `id`.
    pub fn contains(&self, id: usize) -> (b: bool)
        ensures
            b == self@.clips.contains_key(id),
    {
        self.clips.contains_key(&id)
    }

    /// The clip of `id`.
    pub fn clip(&self, id: usize) -> (c: &C)
        requires
            self@.clips.contains_key(id),
        ensures
            *c == self@.clips[id],
    {
        self.clips.get(&id).unwrap()
    }

    /// Every clip once, in the order in which the map is walked.
    pub fn clips(&self) -> (out: Vec<&C>)
        ensures
            lists_values(out@.map_values(|r: &C| *r), self@.clips),
    {
        values_of(&self.clips)
    }
}

impl<C: Playback> Player<C> {
    /// Starts the clip of `id`.
    pub fn play(&self, id: usize)
        requires
            self@.clips.contains_key(id),
        ensures
            call_ensures(C::play, (&self@.clips[id],), ()),
    {
        self.clip(id).play();
    }

    /// Plays the clip of `id` again from its start.
    pub fn restart(&self, id: usize)
        requires
            self@.clips.contains_key(id),
        ensures
            call_ensures(C::restart, (&self@.clips[id],), ()),
    {
        self.clip(id).restart();
    }

    /// Stops the clip of `id`.
    pub fn stop(&self, id: usize)
        requires
            self@.clips.contains_key(id),
        ensures
            call_ensures(C::stop, (&self@.clips[id],), ()),
    {
        self.clip(id).stop();
    }

    /// Whether the clip of `id` plays: the answer of that clip.
    pub fn is_playing(&self, id: usize) -> (playing: bool)
        requires
            self@.clips.contains_key(id),
        ensures
            call_ensures(C::is_playing, (&self@.clips[id],), playing),
    {
        self.clip(id).is_playing()
    }

    /// The button of clip `id` was pressed: a clip that plays is stopped,
    /// one that does not is started. Gives the icon its button shows next.
    pub fn play_pause(&self, id: usize) -> (icon: Icon)
        requires
            self@.clips.contains_key(id),
        ensures
            exists|was_playing: bool|
                {
                    &&& call_ensures(C::is_playing, (&self@.clips[id],), was_playing)
                    &&& was_playing ==> call_ensures(C::stop, (&self@.clips[id],), ())
                    &&& !was_playing ==> call_ensures(C::play, (&self@.clips[id],), ())
                    &&& icon == toggled_icon(was_playing)
                },
    {
        let was_playing = self.is_playing(id);
        if was_playing {
            self.stop(id);
        } else {
            self.play(id);
        }
        icon_after_toggle(was_playing)
    }

    /// Plays every clip on `device` as its primary device.
    pub fn set_primary_device(&self, device: &C::Device)
        ensures
            forall|k: usize|
                self@.clips.contains_key(k) ==> call_ensures(
                    C::set_primary_device,
                    (&#[trigger] self@.clips[k], device),
                    (),
                ),
    {
        let all = self.clips();
        let mut i: usize = 0;
        while i < all.len()
            invariant
                i <= all@.len(),
                forall|j: int|
                    0 <= j < i ==> call_ensures(C::set_primary_device, (#[trigger] all@[j], device), ()),
            decreases all.len() - i,
        {
            all[i].set_primary_device(device);
            i = i + 1;
        }
        proof {
            assert forall|k: usize| self@.clips.contains_key(k) implies call_ensures(
                C::set_primary_device,
                (&#[trigger] self@.clips[k], device),
                (),
            ) by {
                let j = lemma_clip_in_walk(all@, self@.clips, k);
                assert(all@[j] == &self@.clips[k]);
            }
        }
    }

    /// Plays every clip on `device` as its secondary device.
    pub fn set_secondary_device(&self, device: &C::Device)
        ensures
            forall|k: usize|
                self@.clips.contains_key(k) ==> call_ensures(
                    C::set_secondary_device,
                    (&#[trigger] self@.clips[k], device),
                    (),
                ),
    {
        let all = self.clips();
        let mut i: usize = 0;
        while i < all.len()
            invariant
                i <= all@.len(),
                forall|j: int|
                    0 <= j < i ==> call_ensures(C::set_secondary_device, (#[trigger] all@[j], device), ()),
            decreases all.len() - i,
        {
            all[i].set_secondary_device(device);
            i = i + 1;
        }
        proof {
            assert forall|k: usize| self@.clips.contains_key(k) implies call_ensures(
                C::set_secondary_device,
                (&#[trigger] self@.clips[k], device),
                (),
            ) by {
                let j = lemma_clip_in_walk(all@, self@.clips, k);
                assert(all@[j] == &self@.clips[k]);
            }
        }
    }

    /// Stops every clip.
    pub fn stop_all(&self)
        ensures
            forall|k: usize|
                self@.clips.contains_key(k) ==> call_ensures(C::stop, (&#[trigger] self@.clips[k],), ()),
    {
        let all = self.clips();
        let mut i: usize = 0;
        while i < all.len()
            invariant
                i <= all@.len(),
                forall|j: int| 0 <= j < i ==> call_ensures(C::stop, (#[trigger] all@[j],), ()),
            decreases all.len() - i,
        {
            all[i].stop();
            all[i].stop();
            i = i + 1;
        }
        proof {
            assert forall|k: usize| self@.clips.contains_key(k) implies call_ensures(
                C::stop,
                (&#[trigger] self@.clips[k],),
                (),
            ) by {
                let j = lemma_clip_in_walk(all@, self@.clips, k);
                assert(all@[j] == &self@.clips[k]);
            }
        }
    }
}

/// Each clip of the map is met in a walk that lists its values.
proof fn lemma_clip_in_walk<C>(all: Seq<&C>, m: Map<usize, C>, k: usize) -> (j: int)
    requires
        lists_values(all.map_values(|r: &C| *r), m),
        m.contains_key(k),
    ensures
        0 <= j < all.len(),
        *all[j] == m[k],
{
    let out = all.map_values(|r: &C| *r);
    lemma_listed_values(out, m, k);
    let j = choose|j: int| 0 <= j < out.len() && out[j] == m[k];
    j
}

proof fn lemma_drop_last_keeps_no_duplicates(s: Seq<usize>)
    requires
        s.len() > 0,
        s.no_duplicates(),
    ensures
        s.drop_last().no_duplicates(),
{
}

proof fn lemma_push_fresh_keeps_no_duplicates(s: Seq<usize>, x: usize)
    requires
        s.no_duplicates(),
        !s.contains(x),
    ensures
        s.push(x).no_duplicates(),
{
    assert forall|i: int, j: int| 0 <= i < s.push(x).len() && 0 <= j < s.push(x).len() && i != j
        implies s.push(x)[i] != s.push(x)[j] by {
        if i == s.len() {
            assert(s[j] == s.push(x)[j]);
        } else if j == s.len() {
            assert(s[i] == s.push(x)[i]);
        }
    }
}


/// An id can be handed out exactly when some id is free or the counter has
/// not reached `usize::MAX`; then the next one is the id freed last, or else
/// the counter's value, and the counter moves on by one.
pub proof fn lemma_allocation_until_the_counter_ends<C>(s: PlayerState<C>)
    ensures
        s.free.len() > 0 ==> s.can_allocate(),
        s.next < usize::MAX ==> s.can_allocate(),
        s.free.len() == 0 && s.next == usize::MAX ==> !s.can_allocate(),
        s.free.len() == 0 && s.next < usize::MAX ==> s.fresh_id() == s.next
            && s.allocated().next == s.next + 1 && s.allocated().free == s.free
            && s.allocated().clips == s.clips,
        s.free.len() > 0 ==> s.fresh_id() == s.free[s.free.len() - 1]
            && s.allocated().free == s.free.subrange(0, s.free.len() - 1)
            && s.allocated().next == s.next && s.allocated().clips == s.clips,
{
}

/// An id that is handed out belongs to no clip, and the clip loaded for it
/// may be stored under it.
pub proof fn lemma_fresh_id_is_unused<C>(s: PlayerState<C>)
    requires
        s.wf(),
        s.can_allocate(),
    ensures
        !s.clips.contains_key(s.fresh_id()),
        s.allocated().wf(),
        s.allocated().may_insert(s.fresh_id()),
{
    if s.free.len() > 0 {
        let last = s.free.len() - 1;
        assert(s.free[last] < s.next && !s.clips.contains_key(s.free[last]));
        lemma_drop_last_keeps_no_duplicates(s.free);
        if s.free.drop_last().contains(s.fresh_id()) {
            let i = choose|i: int| 0 <= i < s.free.drop_last().len() && s.free.drop_last()[i] == s.fresh_id();
            assert(s.free[i] == s.free[last]);
        }
    }
}

/// Two ids handed out one after the other differ.
pub proof fn lemma_successive_ids_differ<C>(s: PlayerState<C>)
    requires
        s.wf(),
        s.can_allocate(),
        s.allocated().can_allocate(),
    ensures
        s.allocated().fresh_id() != s.fresh_id(),
{
    if s.free.len() > 1 {
        assert(s.free.drop_last().last() == s.free[s.free.len() - 2]);
    } else if s.free.len() == 1 {
        assert(s.free[0] < s.next);
    }
}

/// Removing a clip and then handing out an id gives back the removed id,
/// and leaves the free ids as they were before the removal.
pub proof fn lemma_remove_then_allocate<C>(s: PlayerState<C>, id: usize)
    requires
        s.wf(),
        s.clips.contains_key(id),
    ensures
        s.removed(id).can_allocate(),
        s.removed(id).fresh_id() == id,
        s.removed(id).allocated().free == s.free,
        s.removed(id).allocated().next == s.next,
        s.removed(id).allocated().clips == s.clips.remove(id),
{
    assert(s.free.push(id).drop_last() =~= s.free);
}

/// Storing a clip under a fresh id and then removing it leaves the clips
/// as they were and frees the id.
pub proof fn lemma_insert_then_remove<C>(s: PlayerState<C>, id: usize, clip: C)
    requires
        s.wf(),
        s.may_insert(id),
    ensures
        s.inserted(id, clip).removed(id).clips == s.clips,
        s.inserted(id, clip).removed(id).free == s.free.push(id),
        s.inserted(id, clip).removed(id).next == s.next,
{
    assert(s.clips.insert(id, clip).remove(id) =~= s.clips);
}

} // verus!
