//! The program's command line, and what its self-test asks of each step.

use crate::router::Item;
use crate::text;
use vstd::prelude::*;

verus! {

/// What a command line asks for.
#[derive(Clone, Copy, Debug, PartialEq, Eq, Structural)]
pub enum Command {
    /// Print the version.
    Version,
    /// Print the indexed applications.
    IndexApps,
    /// Run the launcher, or its self-test.
    Run { smoke: bool },
}

/// Whether one of the arguments is the given flag.
pub open spec fn has(args: Seq<String>, flag: Seq<char>) -> bool {
    exists|i: int| 0 <= i < args.len() && #[trigger] args[i]@ == flag
}

/// Whether one of the arguments is the given flag.
fn has_flag(args: &Vec<String>, flag: &str) -> (r: bool)
    ensures
        r == has(args@, flag@),
{
    let mut i: usize = 0;
    while i < args.len()
        invariant
            i <= args@.len(),
            forall|k: int| 0 <= k < i ==> #[trigger] args@[k]@ != flag@,
        decreases args@.len() - i,
    {
        if text::same(&args[i], flag) {
            assert(args@[i as int]@ == flag@);
            return true;
        }
        i = i + 1;
    }
    false
}

/// What a command line asks for: the version before all else, then the
/// listing where there is one.
pub fn command(args: &Vec<String>, can_index: bool) -> (r: Command)
    ensures
        r == (if has(args@, "--version"@) || has(args@, "-V"@) {
            Command::Version
        } else if can_index && has(args@, "--index-apps"@) {
            Command::IndexApps
        } else {
            Command::Run { smoke: has(args@, "--smoke"@) }
        }),
{
    if has_flag(args, "--version") || has_flag(args, "-V") {
        Command::Version
    } else if can_index && has_flag(args, "--index-apps") {
        Command::IndexApps
    } else {
        Command::Run { smoke: has_flag(args, "--smoke") }
    }
}

/// The line that lists an application: its title, id and path.
pub fn index_line(item: &Item) -> (r: String)
    ensures
        r@ == item.title@ + "\t"@ + item.id@ + ("\t"@ + item.subtitle@),
{
    let head = text::join3(&item.title, "\t", &item.id);
    text::join(&head, &text::join("\t", &item.subtitle))
}

/// The query with which the self-test tries the field.
pub const SMOKE_QUERY: &'static str = "beckon smoke";

/// Whether summoning worked: the panel can be seen, it lists something, and
/// the field gives back what was put in.
pub fn smoke_show(visible: bool, default_rows: usize, round_trip: &str) -> (r: bool)
    ensures
        r == (visible && default_rows > 0 && round_trip@ == SMOKE_QUERY@),
{
    visible && default_rows > 0 && text::same(round_trip, SMOKE_QUERY)
}

/// What the self-test saw of a search.
pub struct SearchSeen {
    pub rows: usize,
    pub top: String,
    pub down_handled: bool,
    pub selected: Option<usize>,
    pub command_top: String,
    pub window_rows: usize,
    pub emoji_top: String,
    pub uuid_rows: usize,
    pub uuid_top: String,
    pub snippet_rows: usize,
    pub link_subtitle: String,
}

/// How often a character occurs.
pub open spec fn count(s: Seq<char>, c: char) -> nat
    decreases s.len(),
{
    if s.len() == 0 {
        0
    } else {
        count(s.drop_last(), c) + (if s.last() == c {
            1nat
        } else {
            0
        })
    }
}

/// How often a character occurs.
fn count_char(s: &str, c: char) -> (r: usize)
    ensures
        r == count(s@, c),
{
    let x = text::chars_of(s);
    let mut n: usize = 0;
    let mut i: usize = 0;
    assert(s@.take(0) =~= Seq::empty());
    while i < x.len()
        invariant
            i <= x@.len(),
            x@ == s@,
            n <= i,
            n == count(s@.take(i as int), c),
        decreases x@.len() - i,
    {
        proof {
            assert(s@.take(i + 1).drop_last() =~= s@.take(i as int));
        }
        if x[i] == c {
            n = n + 1;
        }
        i = i + 1;
    }
    assert(s@.take(i as int) =~= s@);
    n
}

/// Whether a text looks like a UUID: of the right length in bytes, with four
/// hyphens.
pub open spec fn uuid_shaped(s: Seq<char>) -> bool {
    vstd::utf8::encode_utf8(s).len() == 36 && count(s, '-') == 4
}

/// Whether the search part of the self-test passed.
pub open spec fn search_passes(seen: SearchSeen) -> bool {
    &&& seen.rows > 0
    &&& text::occurs(seen.top@, "Safari"@)
    &&& seen.down_handled
    &&& seen.selected == Some(if seen.rows > 1 {
        1usize
    } else {
        0
    })
    &&& seen.command_top@ == "Window: Left Half"@
    &&& seen.window_rows > 0
    &&& text::occurs(seen.emoji_top@, "fire"@)
    &&& seen.uuid_rows == 1
    &&& uuid_shaped(seen.uuid_top@)
    &&& seen.snippet_rows > 0
    &&& text::occurs(seen.link_subtitle@, "q=rust%20launcher"@)
}

/// Whether the search part of the self-test passed.
pub fn smoke_search(seen: &SearchSeen) -> (r: bool)
    ensures
        r == search_passes(*seen),
{
    let moved: usize = if seen.rows > 1 {
        1
    } else {
        0
    };
    let selection_ok = match seen.selected {
        Some(i) => i == moved,
        None => false,
    };
    let uuid_ok = seen.uuid_rows == 1 && seen.uuid_top.as_str().as_bytes().len() == 36 && count_char(
        &seen.uuid_top,
        '-',
    ) == 4;
    seen.rows > 0 && text::contains(&seen.top, "Safari") && seen.down_handled && selection_ok
        && text::same(&seen.command_top, "Window: Left Half") && seen.window_rows > 0
        && text::contains(&seen.emoji_top, "fire") && uuid_ok && seen.snippet_rows > 0
        && text::contains(&seen.link_subtitle, "q=rust%20launcher")
}

/// Whether the calculator part of the self-test passed: one row with the
/// result, which Return copied before the panel went away.
pub fn smoke_calc(rows: usize, top: &str, return_handled: bool, pasted: &str, hidden: bool) -> (r:
    bool)
    ensures
        r == (rows == 1 && top@ == "4"@ && return_handled && pasted@ == "4"@ && hidden),
{
    rows == 1 && text::same(top, "4") && return_handled && text::same(pasted, "4") && hidden
}

/// The exit code of the self-test: zero where every step passed.
pub fn smoke_exit(
    showed: bool,
    searched: bool,
    calculated: bool,
    frecency: bool,
    hid: bool,
) -> (r: i32)
    ensures
        r == (if showed && searched && calculated && frecency && hid {
            0i32
        } else {
            1
        }),
{
    if showed && searched && calculated && frecency && hid {
        0
    } else {
        1
    }
}

/// A flag is given exactly where one of the arguments is that flag.
pub proof fn law_flags_are_whole_arguments(args: Seq<String>, arg: String, flag: Seq<char>)
    ensures
        has(Seq::empty(), flag) == false,
        has(args.push(arg), flag) <==> has(args, flag) || arg@ == flag,
{
    let more = args.push(arg);
    if has(args, flag) {
        let i = choose|i: int| 0 <= i < args.len() && #[trigger] args[i]@ == flag;
        assert(more[i]@ == flag);
    }
    assert(more[args.len() as int]@ == arg@);
    if has(more, flag) && arg@ != flag {
        let i = choose|i: int| 0 <= i < more.len() && #[trigger] more[i]@ == flag;
        assert(args[i]@ == flag);
    }
}

/// Every place that holds a character counts once.
pub proof fn law_every_occurrence_counts(a: Seq<char>, b: Seq<char>, c: char, d: char)
    ensures
        count(a + b, c) == count(a, c) + count(b, c),
        count(seq![d], c) == (if d == c {
            1nat
        } else {
            0
        }),
        count(Seq::empty(), c) == 0,
    decreases b.len(),
{
    reveal_with_fuel(count, 2);
    assert(seq![d].drop_last() =~= Seq::<char>::empty());
    if b.len() == 0 {
        assert(a + b =~= a);
    } else {
        assert((a + b).drop_last() =~= a + b.drop_last());
        law_every_occurrence_counts(a, b.drop_last(), c, d);
    }
}

/// The search part of the self-test passes only where every part of it does.
pub proof fn law_every_part_of_the_search_must_pass(seen: SearchSeen)
    requires
        search_passes(seen),
    ensures
        seen.rows > 0 && seen.window_rows > 0 && seen.snippet_rows > 0 && seen.uuid_rows == 1,
        text::occurs(seen.top@, "Safari"@),
        text::occurs(seen.emoji_top@, "fire"@),
        text::occurs(seen.link_subtitle@, "q=rust%20launcher"@),
        seen.command_top@ == "Window: Left Half"@,
        seen.down_handled,
        seen.rows == 1 ==> seen.selected == Some(0usize),
        seen.rows > 1 ==> seen.selected == Some(1usize),
        count(seen.uuid_top@, '-') == 4,
        vstd::utf8::encode_utf8(seen.uuid_top@).len() == 36,
{
}

} // verus!
