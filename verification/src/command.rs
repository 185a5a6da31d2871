//! The commands that the user interface sends to the player, as text:
//! a command word and its arguments, separated by white space.

use crate::clock::{
    decimal, digits_value, is_digit, lemma_decimal_reads_back,
    lemma_digits_value_prefix_bound, lemma_digits_value_push,
};
use vstd::prelude::*;

verus! {

/// Whether `c` has the Unicode `White_Space` property.
pub open spec fn is_white_space(c: char) -> bool {
    let u = c as u32;
    ||| 0x09 <= u <= 0x0d
    ||| u == 0x20
    ||| u == 0x85
    ||| u == 0xa0
    ||| u == 0x1680
    ||| 0x2000 <= u <= 0x200a
    ||| u == 0x2028
    ||| u == 0x2029
    ||| u == 0x202f
    ||| u == 0x205f
    ||| u == 0x3000
}

/// The words of `s` after the word `cur` that has begun: the maximal runs
/// of characters that are not white space.
pub open spec fn words_after(s: Seq<char>, cur: Seq<char>) -> Seq<Seq<char>>
    decreases s.len(),
{
    let done: Seq<Seq<char>> = if cur.len() == 0 { seq![] } else { seq![cur] };
    if s.len() == 0 {
        done
    } else if is_white_space(s[0]) {
        done + words_after(s.drop_first(), seq![])
    } else {
        words_after(s.drop_first(), cur.push(s[0]))
    }
}

/// The words of `s`, in order.
pub open spec fn words(s: Seq<char>) -> Seq<Seq<char>> {
    words_after(s, seq![])
}

/// The digits of an unsigned number: the text without one leading `+`.
pub open spec fn unsigned_digits(s: Seq<char>) -> Seq<char> {
    if s.len() > 0 && s[0] == '+' {
        s.drop_first()
    } else {
        s
    }
}

/// The `usize` that `s` denotes as an unsigned decimal number (an optional
/// `+` and at least one digit, of a value that fits), or `None`.
pub open spec fn usize_of(s: Seq<char>) -> Option<usize> {
    let d = unsigned_digits(s);
    if d.len() > 0 && (forall|i: int| 0 <= i < d.len() ==> is_digit(#[trigger] d[i]))
        && digits_value(d) <= usize::MAX {
        Some(digits_value(d) as usize)
    } else {
        None
    }
}

/// Whether `c` has the Unicode `White_Space` property.
pub fn white_space(c: char) -> (b: bool)
    ensures
        b == is_white_space(c),
{
    let u = c as u32;
    (0x09 <= u && u <= 0x0d) || u == 0x20 || u == 0x85 || u == 0xa0 || u == 0x1680 || (0x2000
        <= u && u <= 0x200a) || u == 0x2028 || u == 0x2029 || u == 0x202f || u == 0x205f || u
        == 0x3000
}

proof fn lemma_words_step(s: Seq<char>, i: int, start: int)
    requires
        0 <= start <= i < s.len(),
    ensures
        is_white_space(s[i]) ==> words_after(s.skip(i), s.subrange(start, i)) == (if start
            == i {
            seq![]
        } else {
            seq![s.subrange(start, i)]
        }) + words_after(s.skip(i + 1), s.subrange(i + 1, i + 1)),
        !is_white_space(s[i]) ==> words_after(s.skip(i), s.subrange(start, i)) == words_after(
            s.skip(i + 1),
            s.subrange(start, i + 1),
        ),
{
    assert(s.skip(i).drop_first() =~= s.skip(i + 1));
    assert(s.skip(i)[0] == s[i]);
    assert(s.subrange(start, i).push(s[i]) =~= s.subrange(start, i + 1));
    assert(s.subrange(i + 1, i + 1) =~= Seq::<char>::empty());
}

/// Splits `s` into its words, as `str::split_whitespace` does.
pub fn split_words<'a>(s: &'a str) -> (out: Vec<&'a str>)
    ensures
        out@.map_values(|w: &str| w@) == words(s@),
{
    let n = s.unicode_len();
    let mut out: Vec<&'a str> = Vec::new();
    let mut start: usize = 0;
    let mut i: usize = 0;
    assert(s@.skip(0) =~= s@);
    assert(s@.subrange(0, 0) =~= Seq::<char>::empty());
    while i < n
        invariant
            n == s@.len(),
            start <= i <= n,
            out@.map_values(|w: &str| w@) + words_after(s@.skip(i as int), s@.subrange(
                start as int,
                i as int,
            )) == words(s@),
        decreases n - i,
    {
        let c = s.get_char(i);
        proof {
            lemma_words_step(s@, i as int, start as int);
        }
        if white_space(c) {
            if start < i {
                let w = s.substring_char(start, i);
                let ghost before = out@.map_values(|w: &str| w@);
                out.push(w);
                assert(out@.map_values(|w: &str| w@) =~= before + seq![w@]);
            }
            start = i + 1;
        }
        i = i + 1;
        proof {
            let ghost m = out@.map_values(|w: &str| w@);
            assert(m + words_after(s@.skip(i as int), s@.subrange(start as int, i as int)) =~= words(s@));
        }
    }
    let ghost before = out@.map_values(|w: &str| w@);
    assert(s@.skip(n as int) =~= Seq::<char>::empty());
    if start < n {
        let w = s.substring_char(start, n);
        out.push(w);
        assert(out@.map_values(|w: &str| w@) =~= before + seq![w@]);
    }
    assert(out@.map_values(|w: &str| w@) =~= words(s@));
    out
}


/// Whether two texts are the same.
pub fn same_text(a: &str, b: &str) -> (r: bool)
    ensures
        r == (a@ == b@),
{
    let n = a.unicode_len();
    if n != b.unicode_len() {
        return false;
    }
    let mut i: usize = 0;
    while i < n
        invariant
            n == a@.len(),
            n == b@.len(),
            i <= n,
            forall|j: int| 0 <= j < i ==> a@[j] == b@[j],
        decreases n - i,
    {
        if a.get_char(i) != b.get_char(i) {
            return false;
        }
        i = i + 1;
    }
    assert(a@ =~= b@);
    true
}

/// Reads `s` as an unsigned decimal number, as `str::parse::<usize>` does.
pub fn parse_index(s: &str) -> (r: Option<usize>)
    ensures
        r == usize_of(s@),
{
    let n = s.unicode_len();
    let mut i: usize = 0;
    if n > 0 && s.get_char(0) == '+' {
        i = 1;
    }
    let ghost d = unsigned_digits(s@);
    assert(d =~= s@.skip(i as int));
    if i == n {
        return None;
    }
    let first = i;
    let mut value: usize = 0;
    assert(s@.subrange(first as int, first as int) =~= Seq::<char>::empty());
    while i < n
        invariant
            n == s@.len(),
            first <= i <= n,
            first < n,
            d =~= s@.skip(first as int),
            d == unsigned_digits(s@),
            forall|j: int| first <= j < i ==> is_digit(#[trigger] s@[j]),
            value == digits_value(s@.subrange(first as int, i as int)),
        decreases n - i,
    {
        let c = s.get_char(i);
        let u = c as u32;
        if u < 0x30 || u > 0x39 {
            assert(!is_digit(d[i - first]));
            return None;
        }
        proof {
            lemma_digits_value_push(s@.subrange(first as int, i as int), c);
            assert(s@.subrange(first as int, i as int).push(c) =~= s@.subrange(
                first as int,
                i + 1,
            ));
            assert(d.take(i + 1 - first) =~= s@.subrange(first as int, i + 1));
        }
        let digit = (u - 0x30) as usize;
        match value.checked_mul(10) {
            Some(m) => match m.checked_add(digit) {
                Some(v) => {
                    value = v;
                },
                None => {
                    proof {
                        lemma_digits_value_prefix_bound(d, (i + 1 - first) as int);
                    }
                    return None;
                },
            },
            None => {
                proof {
                    lemma_digits_value_prefix_bound(d, (i + 1 - first) as int);
                }
                return None;
            },
        }
        i = i + 1;
    }
    assert(s@.subrange(first as int, n as int) =~= d);
    Some(value)
}

/// A request of the user interface.
#[derive(Debug, PartialEq)]
pub enum Command {
    /// Close the window.
    Exit,
    /// Ask for audio files to load.
    Browse,
    /// Remove the clip of this id.
    Remove(usize),
    /// Start the clip of this id, or stop it where it plays.
    PlayPause(usize),
    /// Play the clip of this id from its start.
    Restart(usize),
    /// Send the names of the output devices.
    UpdateDeviceList,
    /// Play on the output device of this index as the primary device.
    SelectPrimary(usize),
    /// Play on the output device of this index as the secondary device.
    SelectSecondary(usize),
    /// Set the primary and the secondary volume, given as the texts of two
    /// floating-point numbers.
    SetVolume(String, String),
    /// The page has loaded: restore the saved settings.
    Ready,
    /// Any other command word.
    Other,
}

/// Why a command text was refused.
#[derive(Debug, PartialEq, Clone, Copy)]
pub enum CommandError {
    /// The text holds no word.
    Empty,
    /// The command word lacks an argument that it needs.
    MissingArgument,
    /// The argument that names an index is not an unsigned decimal number
    /// that fits in a `usize`.
    InvalidIndex,
}

/// The index that the second word names, or why there is none.
pub open spec fn index_argument(w: Seq<Seq<char>>) -> Result<usize, CommandError> {
    if w.len() < 2 {
        Err(CommandError::MissingArgument)
    } else {
        match usize_of(w[1]) {
            Some(n) => Ok(n),
            None => Err(CommandError::InvalidIndex),
        }
    }
}

/// The command built by `make` from the index that the second word names.
pub open spec fn indexed(w: Seq<Seq<char>>, make: spec_fn(usize) -> Command) -> Result<
    Command,
    CommandError,
> {
    match index_argument(w) {
        Ok(n) => Ok(make(n)),
        Err(e) => Err(e),
    }
}

/// `r` is what the command text `text` asks for: the first word names the
/// command, the words after it are its arguments, and words beyond those
/// that the command takes are ignored.
pub open spec fn parsed_as(text: Seq<char>, r: Result<Command, CommandError>) -> bool {
    let w = words(text);
    if w.len() == 0 {
        r == Err::<Command, CommandError>(CommandError::Empty)
    } else {
        let name = w[0];
        if name == "exit"@ {
            r == Ok::<Command, CommandError>(Command::Exit)
        } else if name == "browse"@ {
            r == Ok::<Command, CommandError>(Command::Browse)
        } else if name == "remove"@ {
            r == indexed(w, |n: usize| Command::Remove(n))
        } else if name == "play_pause"@ {
            r == indexed(w, |n: usize| Command::PlayPause(n))
        } else if name == "restart"@ {
            r == indexed(w, |n: usize| Command::Restart(n))
        } else if name == "update_device_list"@ {
            r == Ok::<Command, CommandError>(Command::UpdateDeviceList)
        } else if name == "select_primary"@ {
            r == indexed(w, |n: usize| Command::SelectPrimary(n))
        } else if name == "select_secondary"@ {
            r == indexed(w, |n: usize| Command::SelectSecondary(n))
        } else if name == "set_volume"@ {
            if w.len() < 3 {
                r == Err::<Command, CommandError>(CommandError::MissingArgument)
            } else {
                r matches Ok(Command::SetVolume(a, b)) && a@ == w[1] && b@ == w[2]
            }
        } else if name == "ready"@ {
            r == Ok::<Command, CommandError>(Command::Ready)
        } else {
            r == Ok::<Command, CommandError>(Command::Other)
        }
    }
}

/// Reads the index that the second word names.
fn index_word(w: &Vec<&str>) -> (r: Result<usize, CommandError>)
    ensures
        r == index_argument(w@.map_values(|x: &str| x@)),
{
    let ghost ws = w@.map_values(|x: &str| x@);
    if w.len() < 2 {
        Err(CommandError::MissingArgument)
    } else {
        assert(ws[1] == w@[1]@);
        match parse_index(w[1]) {
            Some(n) => Ok(n),
            None => Err(CommandError::InvalidIndex),
        }
    }
}

/// Reads a command text of the user interface.
pub fn parse_command(text: &str) -> (r: Result<Command, CommandError>)
    ensures
        parsed_as(text@, r),
{
    let w = split_words(text);
    let ghost ws = w@.map_values(|x: &str| x@);
    if w.len() == 0 {
        return Err(CommandError::Empty);
    }
    let name = w[0];
    assert(ws[0] == name@);
    if same_text(name, "exit") {
        Ok(Command::Exit)
    } else if same_text(name, "browse") {
        Ok(Command::Browse)
    } else if same_text(name, "remove") {
        match index_word(&w) {
            Ok(n) => Ok(Command::Remove(n)),
            Err(e) => Err(e),
        }
    } else if same_text(name, "play_pause") {
        match index_word(&w) {
            Ok(n) => Ok(Command::PlayPause(n)),
            Err(e) => Err(e),
        }
    } else if same_text(name, "restart") {
        match index_word(&w) {
            Ok(n) => Ok(Command::Restart(n)),
            Err(e) => Err(e),
        }
    } else if same_text(name, "update_device_list") {
        Ok(Command::UpdateDeviceList)
    } else if same_text(name, "select_primary") {
        match index_word(&w) {
            Ok(n) => Ok(Command::SelectPrimary(n)),
            Err(e) => Err(e),
        }
    } else if same_text(name, "select_secondary") {
        match index_word(&w) {
            Ok(n) => Ok(Command::SelectSecondary(n)),
            Err(e) => Err(e),
        }
    } else if same_text(name, "set_volume") {
        if w.len() < 3 {
            Err(CommandError::MissingArgument)
        } else {
            assert(ws[1] == w@[1]@ && ws[2] == w@[2]@);
            Ok(Command::SetVolume(w[1].to_owned(), w[2].to_owned()))
        }
    } else if same_text(name, "ready") {
        Ok(Command::Ready)
    } else {
        Ok(Command::Other)
    }
}


/// A run of characters that are not white space continues the word that
/// has begun.
proof fn lemma_words_after_run(w: Seq<char>, rest: Seq<char>, cur: Seq<char>)
    requires
        forall|i: int| 0 <= i < w.len() ==> !is_white_space(#[trigger] w[i]),
    ensures
        words_after(w + rest, cur) == words_after(rest, cur + w),
    decreases w.len(),
{
    if w.len() == 0 {
        assert(w + rest =~= rest);
        assert(cur + w =~= cur);
    } else {
        let s = w + rest;
        assert(s[0] == w[0]);
        assert(s.drop_first() =~= w.drop_first() + rest);
        lemma_words_after_run(w.drop_first(), rest, cur.push(w[0]));
        assert(cur.push(w[0]) + w.drop_first() =~= cur + w);
    }
}

/// A command word followed by a space and the decimal text of an id reads
/// back as those two words, and its index argument as the id.
pub proof fn lemma_index_command_reads_back(name: Seq<char>, id: usize)
    requires
        name.len() > 0,
        forall|i: int| 0 <= i < name.len() ==> !is_white_space(#[trigger] name[i]),
    ensures
        words(name + seq![' '] + decimal(id as nat)) == seq![name, decimal(id as nat)],
        index_argument(words(name + seq![' '] + decimal(id as nat))) == Ok::<usize, CommandError>(id),
{
    let d = decimal(id as nat);
    lemma_decimal_reads_back(id as nat);
    assert forall|i: int| 0 <= i < d.len() implies !is_white_space(#[trigger] d[i]) by {
        assert(is_digit(d[i]));
    }
    let text = name + seq![' '] + d;
    let tail = seq![' '] + d;
    assert(text =~= name + tail);
    lemma_words_after_run(name, tail, seq![]);
    assert(Seq::<char>::empty() + name =~= name);
    assert(tail[0] == ' ');
    assert((' ' as u32) == 0x20);
    assert(tail.drop_first() =~= d);
    lemma_words_after_run(d, Seq::<char>::empty(), seq![]);
    assert(d + Seq::<char>::empty() =~= d);
    assert(Seq::<char>::empty() + d =~= d);
    assert(words(text) =~= seq![name, d]);
    assert(unsigned_digits(d) == d);
}

/// Every character of a command word is a letter or `_`, none white space.
proof fn lemma_command_word_has_no_space(name: Seq<char>)
    requires
        forall|i: int| 0 <= i < name.len() ==> (name[i] as u32) >= 0x5f && (name[i] as u32) <= 0x7a,
    ensures
        forall|i: int| 0 <= i < name.len() ==> !is_white_space(#[trigger] name[i]),
{
}

/// The commands that name a clip or a device by its index, written as the
/// page writes them (the word, a space, the index in decimal), read back as
/// those requests.
pub proof fn lemma_index_commands_read_back(id: usize)
    ensures
        parsed_as("remove"@ + seq![' '] + decimal(id as nat), Ok(Command::Remove(id))),
        parsed_as("play_pause"@ + seq![' '] + decimal(id as nat), Ok(Command::PlayPause(id))),
        parsed_as("restart"@ + seq![' '] + decimal(id as nat), Ok(Command::Restart(id))),
        parsed_as(
            "select_primary"@ + seq![' '] + decimal(id as nat),
            Ok(Command::SelectPrimary(id)),
        ),
        parsed_as(
            "select_secondary"@ + seq![' '] + decimal(id as nat),
            Ok(Command::SelectSecondary(id)),
        ),
{
    reveal_strlit("exit");
    reveal_strlit("browse");
    reveal_strlit("remove");
    reveal_strlit("play_pause");
    reveal_strlit("restart");
    reveal_strlit("update_device_list");
    reveal_strlit("select_primary");
    reveal_strlit("select_secondary");
    lemma_command_word_has_no_space("remove"@);
    lemma_command_word_has_no_space("play_pause"@);
    lemma_command_word_has_no_space("restart"@);
    lemma_command_word_has_no_space("select_primary"@);
    lemma_command_word_has_no_space("select_secondary"@);
    lemma_index_command_reads_back("remove"@, id);
    lemma_index_command_reads_back("play_pause"@, id);
    lemma_index_command_reads_back("restart"@, id);
    lemma_index_command_reads_back("select_primary"@, id);
    lemma_index_command_reads_back("select_secondary"@, id);
    assert("remove"@ != "exit"@);
    assert("remove"@ != "browse"@);
    assert("play_pause"@ != "exit"@);
    assert("play_pause"@ != "browse"@);
    assert("play_pause"@ != "remove"@);
    assert("restart"@ != "exit"@);
    assert("restart"@ != "browse"@);
    assert("restart"@ != "remove"@);
    assert("restart"@ != "play_pause"@);
    assert("select_primary"@ != "exit"@);
    assert("select_primary"@ != "browse"@);
    assert("select_primary"@ != "remove"@);
    assert("select_primary"@ != "play_pause"@);
    assert("select_primary"@ != "restart"@);
    assert("select_primary"@ != "update_device_list"@);
    assert("select_secondary"@ != "exit"@);
    assert("select_secondary"@ != "browse"@);
    assert("select_secondary"@ != "remove"@);
    assert("select_secondary"@ != "play_pause"@);
    assert("select_secondary"@ != "restart"@);
    assert("select_secondary"@ != "update_device_list"@);
    assert("select_secondary"@ != "select_primary"@);
}


/// A space ends the word that has begun.
proof fn lemma_words_after_space(rest: Seq<char>, cur: Seq<char>)
    requires
        cur.len() > 0,
    ensures
        words_after(seq![' '] + rest, cur) == seq![cur] + words_after(rest, seq![]),
{
    let s = seq![' '] + rest;
    assert(s[0] == ' ');
    assert((' ' as u32) == 0x20);
    assert(s.drop_first() =~= rest);
}

/// A run that is not white space is one word.
proof fn lemma_single_word(w: Seq<char>)
    requires
        w.len() > 0,
        forall|i: int| 0 <= i < w.len() ==> !is_white_space(#[trigger] w[i]),
    ensures
        words_after(w, seq![]) == seq![w],
{
    lemma_words_after_run(w, Seq::<char>::empty(), seq![]);
    assert(w + Seq::<char>::empty() =~= w);
    assert(Seq::<char>::empty() + w =~= w);
}

/// A volume command, written as the page writes it (the word, a space, the
/// primary volume's text, a space, the secondary volume's text), reads back
/// with the first text as the primary volume and the second as the
/// secondary volume, whatever the two texts are.
pub proof fn lemma_set_volume_reads_back(
    primary: Seq<char>,
    secondary: Seq<char>,
    r: Result<Command, CommandError>,
)
    requires
        primary.len() > 0,
        secondary.len() > 0,
        forall|i: int| 0 <= i < primary.len() ==> !is_white_space(#[trigger] primary[i]),
        forall|i: int| 0 <= i < secondary.len() ==> !is_white_space(#[trigger] secondary[i]),
        parsed_as("set_volume"@ + seq![' '] + primary + seq![' '] + secondary, r),
    ensures
        r matches Ok(Command::SetVolume(a, b)) && a@ == primary && b@ == secondary,
{
    reveal_strlit("exit");
    reveal_strlit("browse");
    reveal_strlit("remove");
    reveal_strlit("play_pause");
    reveal_strlit("restart");
    reveal_strlit("update_device_list");
    reveal_strlit("select_primary");
    reveal_strlit("select_secondary");
    reveal_strlit("set_volume");
    let name = "set_volume"@;
    lemma_command_word_has_no_space(name);
    let text = name + seq![' '] + primary + seq![' '] + secondary;
    let t1 = seq![' '] + primary + seq![' '] + secondary;
    let t2 = primary + (seq![' '] + secondary);
    assert(text =~= name + t1);
    lemma_words_after_run(name, t1, seq![]);
    assert(Seq::<char>::empty() + name =~= name);
    assert(t1 =~= seq![' '] + t2);
    lemma_words_after_space(t2, name);
    lemma_words_after_run(primary, seq![' '] + secondary, seq![]);
    assert(Seq::<char>::empty() + primary =~= primary);
    lemma_words_after_space(secondary, primary);
    lemma_single_word(secondary);
    assert(words(text) =~= seq![name, primary, secondary]);
    assert(name != "exit"@);
    assert(name != "browse"@);
    assert(name != "remove"@);
    assert(name != "play_pause"@);
    assert(name != "restart"@);
    assert(name != "update_device_list"@);
    assert(name != "select_primary"@);
    assert(name != "select_secondary"@);
}


/// A command word that takes no argument, alone, reads back as its request;
/// a text of white space alone is refused as empty.
pub proof fn lemma_plain_commands_read_back(blank: Seq<char>, r: Result<Command, CommandError>)
    requires
        forall|i: int| 0 <= i < blank.len() ==> is_white_space(#[trigger] blank[i]),
    ensures
        parsed_as("exit"@, r) ==> r == Ok::<Command, CommandError>(Command::Exit),
        parsed_as("browse"@, r) ==> r == Ok::<Command, CommandError>(Command::Browse),
        parsed_as("update_device_list"@, r) ==> r == Ok::<Command, CommandError>(
            Command::UpdateDeviceList,
        ),
        parsed_as("ready"@, r) ==> r == Ok::<Command, CommandError>(Command::Ready),
        parsed_as(blank, r) ==> r == Err::<Command, CommandError>(CommandError::Empty),
{
    reveal_strlit("exit");
    reveal_strlit("browse");
    reveal_strlit("remove");
    reveal_strlit("play_pause");
    reveal_strlit("restart");
    reveal_strlit("update_device_list");
    reveal_strlit("select_primary");
    reveal_strlit("select_secondary");
    reveal_strlit("set_volume");
    reveal_strlit("ready");
    lemma_command_word_has_no_space("exit"@);
    lemma_command_word_has_no_space("browse"@);
    lemma_command_word_has_no_space("update_device_list"@);
    lemma_command_word_has_no_space("ready"@);
    lemma_single_word("exit"@);
    lemma_single_word("browse"@);
    lemma_single_word("update_device_list"@);
    lemma_single_word("ready"@);
    lemma_blank_has_no_words(blank);
    assert("browse"@ != "exit"@);
    assert("update_device_list"@ != "exit"@);
    assert("update_device_list"@ != "browse"@);
    assert("update_device_list"@ != "remove"@);
    assert("update_device_list"@ != "play_pause"@);
    assert("update_device_list"@ != "restart"@);
    assert("ready"@ != "exit"@);
    assert("ready"@ != "browse"@);
    assert("ready"@ != "remove"@);
    assert("ready"@ != "play_pause"@);
    assert("ready"@ != "restart"@);
    assert("ready"@ != "update_device_list"@);
    assert("ready"@ != "select_primary"@);
    assert("ready"@ != "select_secondary"@);
    assert("ready"@ != "set_volume"@);
}

/// A text of white space alone holds no word.
proof fn lemma_blank_has_no_words(blank: Seq<char>)
    requires
        forall|i: int| 0 <= i < blank.len() ==> is_white_space(#[trigger] blank[i]),
    ensures
        words(blank).len() == 0,
    decreases blank.len(),
{
    if blank.len() > 0 {
        assert(is_white_space(blank[0]));
        lemma_blank_has_no_words(blank.drop_first());
        assert forall|i: int| 0 <= i < blank.drop_first().len() implies is_white_space(
            #[trigger] blank.drop_first()[i],
        ) by {
            assert(blank.drop_first()[i] == blank[i + 1]);
        }
        assert(Seq::<Seq<char>>::empty() + words(blank.drop_first()) =~= words(blank.drop_first()));
    }
}

} // verus!
