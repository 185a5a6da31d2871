//! The saved settings: the loaded clips, the two volumes and the two
//! output devices, and the defaults used when nothing could be read back.

use std::collections::HashMap;
use std::path::PathBuf;
use vstd::prelude::*;

verus! {

broadcast use vstd::std_specs::hash::group_hash_axioms;

/// A path of the file system, carried as it is.
#[verifier::external_type_specification]
#[verifier::external_body]
pub struct ExPathBuf(std::path::PathBuf);

/// A clip as it is remembered between runs: where its file lies and the
/// name shown for it.
pub struct AudioClipData {
    pub path: PathBuf,
    pub name: String,
}

/// The settings of a session. `T` holds the clips; `volume` holds the
/// primary and secondary volume, each as the bit pattern of an `f32`;
/// `device` holds the indexes of the primary and secondary output device.
pub struct Config<T> {
    pub clips: T,
    pub volume: (u32, u32),
    pub device: (usize, usize),
}

/// The clips of a running session, keyed by the id of the clip.
pub struct Clips {
    pub inner: HashMap<usize, AudioClipData>,
}

/// The settings as they were read back at start-up.
pub struct Deserializer {
    pub config: Config<Vec<AudioClipData>>,
}

/// Bit pattern of the `f32` value 0.5, the volume used when no settings
/// could be read.
pub const HALF_VOLUME_BITS: u32 = 0x3f00_0000u32;

/// `out` lists the values of `m`, one for each key, in some order of the keys.
pub open spec fn lists_values<V>(out: Seq<V>, m: Map<usize, V>) -> bool {
    exists|keys: Seq<usize>|
        #![trigger keys.to_set()]
        {
            &&& keys.len() == out.len()
            &&& keys.no_duplicates()
            &&& keys.to_set() == m.dom()
            &&& forall|i: int| 0 <= i < keys.len() ==> m[#[trigger] keys[i]] == out[i]
        }
}

impl<T> Config<T> {
    /// Records the output device of `index` as the primary device.
    pub fn select_primary(&mut self, index: usize)
        ensures
            final(self).device == (index, old(self).device.1),
            final(self).volume == old(self).volume,
            final(self).clips == old(self).clips,
    {
        self.device.0 = index;
    }

    /// Records the output device of `index` as the secondary device.
    pub fn select_secondary(&mut self, index: usize)
        ensures
            final(self).device == (old(self).device.0, index),
            final(self).volume == old(self).volume,
            final(self).clips == old(self).clips,
    {
        self.device.1 = index;
    }

    /// Sets the primary and the secondary volume (bit patterns of `f32`).
    pub fn set_volume(&mut self, volume: (u32, u32))
        ensures
            final(self).volume == volume,
            final(self).device == old(self).device,
            final(self).clips == old(self).clips,
    {
        self.volume = volume;
    }
}

impl Config<Clips> {
    /// The settings of a session that begins: no clip yet, and the given
    /// volumes and output devices.
    pub fn new(volume: (u32, u32), device: (usize, usize)) -> (c: Config<Clips>)
        ensures
            c.clips.inner@ == Map::<usize, AudioClipData>::empty(),
            c.volume == volume,
            c.device == device,
    {
        Config { clips: Clips::new(), volume, device }
    }

    /// Remembers the clip loaded under `id`.
    pub fn record_clip(&mut self, id: usize, data: AudioClipData)
        ensures
            final(self).clips.inner@ == old(self).clips.inner@.insert(id, data),
            final(self).volume == old(self).volume,
            final(self).device == old(self).device,
    {
        self.clips.inner.insert(id, data);
    }

    /// Forgets the clip of `id`, where there is one.
    pub fn forget_clip(&mut self, id: usize)
        ensures
            final(self).clips.inner@ == old(self).clips.inner@.remove(id),
            final(self).volume == old(self).volume,
            final(self).device == old(self).device,
    {
        self.clips.inner.remove(&id);
    }
}

impl Config<Vec<AudioClipData>> {
    /// The settings used when none could be read: no clips, both volumes
    /// at one half, and the default output device (index 0) for both.
    pub fn default_settings() -> (c: Config<Vec<AudioClipData>>)
        ensures
            c.clips@ == Seq::<AudioClipData>::empty(),
            c.volume == (HALF_VOLUME_BITS, HALF_VOLUME_BITS),
            c.device == (0usize, 0usize),
    {
        Config { clips: Vec::new(), volume: (HALF_VOLUME_BITS, HALF_VOLUME_BITS), device: (0, 0) }
    }
}

impl Deserializer {
    /// The settings read back at start-up: those that were read and
    /// understood, or else the default settings.
    pub fn from_parsed(parsed: Option<Config<Vec<AudioClipData>>>) -> (d: Deserializer)
        ensures
            parsed matches Some(c) ==> d.config == c,
            parsed is None ==> d.config.clips@ == Seq::<AudioClipData>::empty() && d.config.volume
                == (HALF_VOLUME_BITS, HALF_VOLUME_BITS) && d.config.device == (0usize, 0usize),
    {
        match parsed {
            Some(config) => Deserializer { config },
            None => Deserializer { config: Config::default_settings() },
        }
    }
}

impl Clips {
    /// No clips.
    pub fn new() -> (c: Clips)
        ensures
            c.inner@ == Map::<usize, AudioClipData>::empty(),
    {
        Clips { inner: HashMap::new() }
    }

    /// The clips in the order in which they are written out: each clip
    /// once, in the order in which the map is walked.
    pub fn entries(&self) -> (out: Vec<&AudioClipData>)
        ensures
            lists_values(out@.map_values(|r: &AudioClipData| *r), self.inner@),
    {
        values_of(&self.inner)
    }
}

/// The values of `m`, each once, in the order in which the map is walked.
pub fn values_of<V>(m: &HashMap<usize, V>) -> (out: Vec<&V>)
    ensures
        lists_values(out@.map_values(|r: &V| *r), m@),
{
    let mut out: Vec<&V> = Vec::new();
    let ghost mut keys: Seq<usize> = Seq::empty();
    let ghost v = vstd::std_specs::iter::IteratorSpec::remaining(
        &vstd::std_specs::hash::spec_hash_map_iter(m),
    );
    for pair in it: m.iter()
        invariant
            it.seq() == v,
            out@.len() == it.index(),
            keys.len() == it.index(),
            forall|i: int| 0 <= i < it.index() ==> keys[i] == *it.seq()[i].0,
            forall|i: int| 0 <= i < it.index() ==> *out@[i] == *it.seq()[i].1,
    {
        proof {
            keys = keys.push(*pair.0);
        }
        out.push(pair.1);
    }
    proof {
        lemma_walk_lists_values(m@, v, keys, out@.map_values(|r: &V| *r));
    }
    out
}

/// A walk of a map that meets each pair once lists its values.
pub proof fn lemma_walk_lists_values<V>(
    m: Map<usize, V>,
    v: Seq<(&usize, &V)>,
    keys: Seq<usize>,
    out: Seq<V>,
)
    requires
        v.len() == m.dom().len(),
        v.no_duplicates(),
        forall|i: int| 0 <= i < v.len() ==> m.contains_key(*v[i].0) && m[*v[i].0] == *v[i].1,
        forall|k: usize| #[trigger] m.contains_key(k) ==> v.contains((&k, &m[k])),
        keys.len() == v.len(),
        out.len() == v.len(),
        forall|i: int| 0 <= i < v.len() ==> keys[i] == *v[i].0,
        forall|i: int| 0 <= i < v.len() ==> out[i] == *v[i].1,
    ensures
        lists_values(out, m),
{
    assert forall|i: int, j: int| 0 <= i < keys.len() && 0 <= j < keys.len() && i != j implies keys[i]
        != keys[j] by {
        if keys[i] == keys[j] {
            assert(m.contains_key(*v[i].0));
            assert(v[i] == v[j]);
        }
    }
    assert forall|k: usize| m.dom().contains(k) implies keys.to_set().contains(k) by {
        assert(m.contains_key(k));
        assert(v.contains((&k, &m[k])));
        let i = choose|i: int| 0 <= i < v.len() && v[i] == (&k, &m[k]);
        assert(keys[i] == k);
    }
    assert forall|k: usize| keys.to_set().contains(k) implies m.dom().contains(k) by {
        let i = choose|i: int| 0 <= i < keys.len() && keys[i] == k;
        assert(m.contains_key(*v[i].0));
    }
    assert(keys.to_set() =~= m.dom());
    assert forall|i: int| 0 <= i < keys.len() implies m[keys[i]] == out[i] by {
        assert(m.contains_key(*v[i].0));
    }
}


/// Each value of the map is in a list of its values, and the list is as
/// long as the map.
pub proof fn lemma_listed_values<V>(out: Seq<V>, m: Map<usize, V>, k: usize)
    requires
        lists_values(out, m),
        m.contains_key(k),
    ensures
        out.contains(m[k]),
        out.len() == m.dom().len(),
{
    let keys = choose|keys: Seq<usize>|
        #![trigger keys.to_set()]
        {
            &&& keys.len() == out.len()
            &&& keys.no_duplicates()
            &&& keys.to_set() == m.dom()
            &&& forall|i: int| 0 <= i < keys.len() ==> m[#[trigger] keys[i]] == out[i]
        };
    assert(keys.to_set().contains(k));
    let i = choose|i: int| 0 <= i < keys.len() && keys[i] == k;
    assert(out[i] == m[k]);
    keys.unique_seq_to_set();
}

} // verus!
