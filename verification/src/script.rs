//! The script calls that the player sends back to the user interface.

use crate::clock::{decimal, decimal_text, digits_value, is_digit, lemma_decimal_reads_back};
use vstd::prelude::*;

verus! {

/// The icon shown on the button of a clip.
#[derive(Debug, PartialEq, Eq, Clone, Copy, Structural)]
pub enum Icon {
    /// The clip is stopped: the button offers to play it.
    Play,
    /// The clip plays: the button offers to stop it.
    Pause,
}

/// The class name of an icon in the page.
pub open spec fn icon_name(icon: Icon) -> Seq<char> {
    match icon {
        Icon::Play => "play-icon"@,
        Icon::Pause => "pause-icon"@,
    }
}

/// The icon that a clip shows after its button was pressed: a clip that
/// played is stopped, a clip that did not play is started.
pub open spec fn toggled_icon(was_playing: bool) -> Icon {
    if was_playing {
        Icon::Play
    } else {
        Icon::Pause
    }
}

/// `set_icon(<index>, "<icon>")`
pub open spec fn set_icon_text(index: nat, icon: Icon) -> Seq<char> {
    "set_icon("@ + decimal(index) + ", \""@ + icon_name(icon) + "\")"@
}

/// `new_sound(<id>, "<name>");`
pub open spec fn new_sound_text(id: nat, name: Seq<char>) -> Seq<char> {
    "new_sound("@ + decimal(id) + ", \""@ + name + "\");"@
}

/// `init_sound(<id>, "<name>", "<length>");`
pub open spec fn init_sound_text(id: nat, name: Seq<char>, length: Seq<char>) -> Seq<char> {
    "init_sound("@ + decimal(id) + ", \""@ + name + "\", \""@ + length + "\");"@
}

/// `remove_sound(<id>);`
pub open spec fn remove_sound_text(id: nat) -> Seq<char> {
    "remove_sound("@ + decimal(id) + ");"@
}

/// `update_device(<primary>,<secondary>);`
pub open spec fn update_device_text(primary: nat, secondary: nat) -> Seq<char> {
    "update_device("@ + decimal(primary) + ","@ + decimal(secondary) + ");"@
}

/// `,"<name>"` for each name, in order.
pub open spec fn quoted_names(names: Seq<Seq<char>>) -> Seq<char>
    decreases names.len(),
{
    if names.len() == 0 {
        Seq::empty()
    } else {
        quoted_names(names.drop_last()) + ",\""@ + names.last() + "\""@
    }
}

/// `set_device_list(["Default","<name>",...])`: the first device is the
/// default device and is listed as `Default`; the others by their names.
pub open spec fn device_list_text(names: Seq<Seq<char>>) -> Seq<char> {
    let others = if names.len() == 0 {
        names
    } else {
        names.drop_first()
    };
    "set_device_list([\"Default\""@ + quoted_names(others) + "])"@
}

/// The icon that a clip shows after its button was pressed.
pub fn icon_after_toggle(was_playing: bool) -> (icon: Icon)
    ensures
        icon == toggled_icon(was_playing),
{
    if was_playing {
        Icon::Play
    } else {
        Icon::Pause
    }
}

fn icon_text(icon: Icon) -> (s: &'static str)
    ensures
        s@ == icon_name(icon),
{
    match icon {
        Icon::Play => "play-icon",
        Icon::Pause => "pause-icon",
    }
}

fn usize_text(n: usize) -> (s: String)
    ensures
        s@ == decimal(n as nat),
{
    decimal_text(n as u64)
}

/// The call that shows `icon` on the button of clip `index`.
pub fn set_icon_call(index: usize, icon: Icon) -> (s: String)
    ensures
        s@ == set_icon_text(index as nat, icon),
{
    let s = String::from_str("set_icon(");
    let s = s.concat(usize_text(index).as_str());
    let s = s.concat(", \"");
    let s = s.concat(icon_text(icon));
    s.concat("\")")
}

/// The call that adds a button for clip `id` while it loads.
pub fn new_sound_call(id: usize, name: &str) -> (s: String)
    ensures
        s@ == new_sound_text(id as nat, name@),
{
    let s = String::from_str("new_sound(");
    let s = s.concat(usize_text(id).as_str());
    let s = s.concat(", \"");
    let s = s.concat(name);
    s.concat("\");")
}

/// The call that completes the button of clip `id` once it has loaded.
pub fn init_sound_call(id: usize, name: &str, length: &str) -> (s: String)
    ensures
        s@ == init_sound_text(id as nat, name@, length@),
{
    let s = String::from_str("init_sound(");
    let s = s.concat(usize_text(id).as_str());
    let s = s.concat(", \"");
    let s = s.concat(name);
    let s = s.concat("\", \"");
    let s = s.concat(length);
    s.concat("\");")
}

/// The call that removes the button of clip `id`.
pub fn remove_sound_call(id: usize) -> (s: String)
    ensures
        s@ == remove_sound_text(id as nat),
{
    let s = String::from_str("remove_sound(");
    let s = s.concat(usize_text(id).as_str());
    s.concat(");")
}

/// The call that selects the saved output devices in the page.
pub fn update_device_call(primary: usize, secondary: usize) -> (s: String)
    ensures
        s@ == update_device_text(primary as nat, secondary as nat),
{
    let s = String::from_str("update_device(");
    let s = s.concat(usize_text(primary).as_str());
    let s = s.concat(",");
    let s = s.concat(usize_text(secondary).as_str());
    s.concat(");")
}

/// The call that lists the output devices, given their names in the
/// order of the device indexes.
pub fn device_list_call(names: &Vec<String>) -> (s: String)
    ensures
        s@ == device_list_text(names@.map_values(|n: String| n@)),
{
    let ghost all = names@.map_values(|n: String| n@);
    let ghost others = if all.len() == 0 {
        all
    } else {
        all.drop_first()
    };
    let mut list = String::from_str("set_device_list([\"Default\"");
    let mut i: usize = 1;
    if names.len() == 0 {
        i = 0;
    }
    assert(others.take(0) =~= Seq::<Seq<char>>::empty());
    while i < names.len()
        invariant
            all == names@.map_values(|n: String| n@),
            others == (if all.len() == 0 {
                all
            } else {
                all.drop_first()
            }),
            names.len() == 0 ==> i == 0,
            names.len() > 0 ==> 1 <= i <= names.len(),
            list@ == "set_device_list([\"Default\""@ + quoted_names(others.take(
                i - (if names.len() == 0 { 0int } else { 1int }),
            )),
        decreases names.len() - i,
    {
        let ghost k = i - 1;
        assert(others.take(k + 1).drop_last() =~= others.take(k));
        assert(others.take(k + 1).last() == names@[i as int]@);
        list.append(",\"");
        list.append(names[i].as_str());
        list.append("\"");
        i = i + 1;
        assert(list@ =~= "set_device_list([\"Default\""@ + quoted_names(others.take(k + 1)));
    }
    assert(others.take(others.len() as int) =~= others);
    list.append("])");
    list
}


/// The call that shows an icon names the clip's index in decimal, then the
/// icon's class: `play-icon` for the play icon and `pause-icon` for the
/// pause icon, whatever the index.
pub proof fn lemma_set_icon_names_index_and_icon(index: nat, icon: Icon)
    ensures
        exists|digits: Seq<char>|
            #![trigger digits_value(digits)]
            {
                &&& digits.len() > 0
                &&& forall|i: int| 0 <= i < digits.len() ==> is_digit(#[trigger] digits[i])
                &&& digits_value(digits) == index
                &&& set_icon_text(index, icon) == "set_icon("@ + digits + ", \""@ + (match icon {
                    Icon::Play => "play-icon"@,
                    Icon::Pause => "pause-icon"@,
                }) + "\")"@
            },
{
    lemma_decimal_reads_back(index);
    let d = decimal(index);
    assert(digits_value(d) == index);
}

/// The call that selects the saved devices names the primary device's index
/// first and the secondary device's index second, each in decimal.
pub proof fn lemma_update_device_names_primary_then_secondary(primary: nat, secondary: nat)
    ensures
        exists|p: Seq<char>, s: Seq<char>|
            #![trigger digits_value(p), digits_value(s)]
            {
                &&& p.len() > 0 && s.len() > 0
                &&& forall|i: int| 0 <= i < p.len() ==> is_digit(#[trigger] p[i])
                &&& forall|i: int| 0 <= i < s.len() ==> is_digit(#[trigger] s[i])
                &&& digits_value(p) == primary
                &&& digits_value(s) == secondary
                &&& update_device_text(primary, secondary) == "update_device("@ + p + ","@ + s
                    + ");"@
            },
{
    lemma_decimal_reads_back(primary);
    lemma_decimal_reads_back(secondary);
    let p = decimal(primary);
    let s = decimal(secondary);
    assert(digits_value(p) == primary && digits_value(s) == secondary);
}

/// With no device or with only the default device, the list holds
/// `Default` alone.
pub proof fn lemma_device_list_of_default_alone(default: Seq<char>)
    ensures
        device_list_text(Seq::empty()) == "set_device_list([\"Default\""@ + "])"@,
        device_list_text(seq![default]) == "set_device_list([\"Default\""@ + "])"@,
{
    assert(seq![default].drop_first() =~= Seq::<Seq<char>>::empty());
    assert("set_device_list([\"Default\""@ + Seq::<char>::empty() =~= "set_device_list([\"Default\""@);
}

/// One more device after the default device adds its name, quoted, at the
/// end of the list, and changes nothing before it.
pub proof fn lemma_device_list_push(names: Seq<Seq<char>>, name: Seq<char>)
    requires
        names.len() >= 1,
    ensures
        exists|before: Seq<char>|
            #![trigger before + "])"@]
            {
                &&& device_list_text(names) == before + "])"@
                &&& device_list_text(names.push(name)) == before + ",\""@ + name + "\""@ + "])"@
            },
{
    let others = names.drop_first();
    assert(names.push(name).drop_first() =~= others.push(name));
    assert(others.push(name).drop_last() =~= others);
    let before = "set_device_list([\"Default\""@ + quoted_names(others);
    assert(device_list_text(names) == before + "])"@);
    assert(device_list_text(names.push(name)) =~= before + ",\""@ + name + "\""@ + "])"@);
}


/// A pressed button shows the play icon when its clip was playing (and is
/// now stopped), and the pause icon when it was not (and now plays).
pub proof fn lemma_pressed_button_shows_the_other_icon()
    ensures
        toggled_icon(true) == Icon::Play,
        toggled_icon(false) == Icon::Pause,
        icon_name(Icon::Play) == "play-icon"@,
        icon_name(Icon::Pause) == "pause-icon"@,
{
}

/// The calls about one clip name its id in decimal and its name and length
/// as they are given.
pub proof fn lemma_sound_calls_name_id_and_texts(id: nat, name: Seq<char>, length: Seq<char>)
    ensures
        exists|digits: Seq<char>|
            #![trigger digits_value(digits)]
            {
                &&& digits.len() > 0
                &&& forall|i: int| 0 <= i < digits.len() ==> is_digit(#[trigger] digits[i])
                &&& digits_value(digits) == id
                &&& new_sound_text(id, name) == "new_sound("@ + digits + ", \""@ + name + "\");"@
                &&& init_sound_text(id, name, length) == "init_sound("@ + digits + ", \""@ + name
                    + "\", \""@ + length + "\");"@
                &&& remove_sound_text(id) == "remove_sound("@ + digits + ");"@
            },
{
    lemma_decimal_reads_back(id);
    let d = decimal(id);
    assert(digits_value(d) == id);
}

} // verus!
