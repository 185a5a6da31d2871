//! The decisions of loading a clip: the id and the button it gets before
//! its file is read, and what is kept and shown once the file was read or
//! could not be.

use crate::clock::{clock_text, duration_to_string};
use crate::config::{AudioClipData, Clips, Config};
use crate::player::Player;
use crate::script::{init_sound_call, init_sound_text, new_sound_call, new_sound_text, remove_sound_call, remove_sound_text};
use vstd::prelude::*;

verus! {

/// Hands out the id of a clip about to be loaded under `name`, and gives the
/// call that adds its button to the page.
pub fn begin_load<C>(player: &mut Player<C>, name: &str) -> (r: (usize, String))
    requires
        old(player)@.can_allocate(),
    ensures
        r.0 == old(player)@.fresh_id(),
        final(player)@ == old(player)@.allocated(),
        final(player)@.wf(),
        !final(player)@.clips.contains_key(r.0),
        final(player)@.may_insert(r.0),
        r.1@ == new_sound_text(r.0 as nat, name@),
{
    let id = player.allocate_id();
    (id, new_sound_call(id, name))
}

/// Completes the loading of clip `id`. Where its file was read (`loaded`
/// holds the clip and its length in whole seconds), the clip is stored
/// under its id, remembered in the settings, and its button completed;
/// where it could not be read, nothing is kept and its button is removed.
pub fn finish_load<C>(
    player: &mut Player<C>,
    config: &mut Config<Clips>,
    id: usize,
    data: AudioClipData,
    loaded: Option<(C, u64)>,
) -> (script: String)
    requires
        old(player)@.may_insert(id),
    ensures
        final(player)@.wf(),
        match loaded {
            Some((clip, seconds)) => {
                &&& final(player)@ == old(player)@.inserted(id, clip)
                &&& final(config).clips.inner@ == old(config).clips.inner@.insert(id, data)
                &&& final(config).volume == old(config).volume
                &&& final(config).device == old(config).device
                &&& script@ == init_sound_text(id as nat, data.name@, clock_text(seconds as nat))
            },
            None => {
                &&& final(player)@ == old(player)@
                &&& *final(config) == *old(config)
                &&& script@ == remove_sound_text(id as nat)
            },
        },
{
    proof {
        use_type_invariant(&*player);
    }
    match loaded {
        Some((clip, seconds)) => {
            player.insert_clip(id, clip);
            let length = duration_to_string(seconds);
            let script = init_sound_call(id, data.name.as_str(), length.as_str());
            config.record_clip(id, data);
            script
        },
        None => remove_sound_call(id),
    }
}

} // verus!
