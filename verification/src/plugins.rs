//! The plugin host: which executables are plugins, when one is started, asked
//! again or given up for the session, and how its items and answers are
//! taken over.
//!
//! A plugin is started the first time that something needs its manifest, and
//! kept. A call that fails in a way that makes the process unusable puts it
//! down; the plugin is started afresh once per call, and given up where that
//! does not help. An error response from a plugin is no such failure.

use crate::order::{self, ints, sorted_positions, views, Ranked};
use crate::router::{Item, ItemKind, ItemView};
use crate::text;
use vstd::prelude::*;

verus! {

/// How long the handshake and every later call may take, in seconds.
pub const REPLY_TIMEOUT_SECS: u64 = 2;

/// The longest response line that is read, in bytes.
pub const MAX_LINE_BYTES: usize = 0x10_0000;

/// The id of the handshake request.
pub const HANDSHAKE_ID: i128 = 1;

/// What a plugin asks for when one of its rows is activated.
#[derive(Clone, Debug, PartialEq, Eq)]
pub enum PluginAction {
    /// The plugin handled everything itself.
    Nothing,
    /// Copy the payload to the clipboard.
    Copy(String),
    /// Copy the payload and paste it into the frontmost app.
    Paste(String),
    /// Open the payload as a URL or path.
    Open(String),
}

/// The text without its control characters.
pub open spec fn without_controls(s: Seq<char>) -> Seq<char> {
    s.filter(|c: char| !text::is_control(c))
}

/// Strips control characters, line ends and tabs among them, from text that a
/// plugin supplied.
pub fn strip_controls(s: &str) -> (r: String)
    ensures
        r@ == without_controls(s@),
{
    let x = text::chars_of(s);
    let mut out = String::new();
    let mut i: usize = 0;
    assert(without_controls(x@.take(0)) =~= Seq::<char>::empty()) by {
        reveal(Seq::filter);
    }
    while i < x.len()
        invariant
            i <= x@.len(),
            x@ == s@,
            out@ == without_controls(x@.take(i as int)),
        decreases x@.len() - i,
    {
        proof {
            let t = x@.take(i + 1);
            assert(t.drop_last() =~= x@.take(i as int));
            assert(t.last() == x@[i as int]);
            reveal(Seq::filter);
        }
        if !text::control(x[i]) {
            out.push(x[i]);
        }
        i = i + 1;
    }
    assert(x@.take(i as int) =~= x@);
    out
}

/// The character that stands in an id for a given one: dots and white space
/// become hyphens.
pub open spec fn id_safe(c: char) -> char {
    if c == '.' || text::is_space(c) {
        '-'
    } else {
        c
    }
}

/// A name as a segment of an id: without control characters, and with hyphens
/// for dots and white space.
pub open spec fn cleaned(s: Seq<char>) -> Seq<char> {
    without_controls(s).map_values(|c: char| id_safe(c))
}

/// A name as a segment of an id.
fn clean(s: &str) -> (r: String)
    ensures
        r@ == cleaned(s@),
{
    let stripped = strip_controls(s);
    let x = text::chars_of(&stripped);
    let mut out = String::new();
    let mut i: usize = 0;
    while i < x.len()
        invariant
            i <= x@.len(),
            x@ == without_controls(s@),
            out@ == x@.take(i as int).map_values(|c: char| id_safe(c)),
        decreases x@.len() - i,
    {
        let c = x[i];
        if c == '.' || text::space(c) {
            out.push('-');
        } else {
            out.push(c);
        }
        i = i + 1;
        assert(x@.take(i as int).map_values(|c: char| id_safe(c)) =~= x@.take(i - 1).map_values(
            |c: char| id_safe(c),
        ).push(id_safe(c)));
    }
    assert(x@.take(i as int) =~= x@);
    out
}

/// The id segment of a plugin: its manifest name, or else its file name, or
/// else a fixed word.
pub open spec fn sanitized(raw: Seq<char>, fallback: Seq<char>) -> Seq<char> {
    if cleaned(raw).len() > 0 {
        cleaned(raw)
    } else if cleaned(fallback).len() > 0 {
        cleaned(fallback)
    } else {
        "plugin"@
    }
}

/// Makes a manifest name into a segment of an id.
pub fn sanitize_name(raw: &str, fallback: &str) -> (r: String)
    ensures
        r@ == sanitized(raw@, fallback@),
{
    let c = clean(raw);
    if !c.as_str().is_empty() {
        return c;
    }
    let f = clean(fallback);
    if !f.as_str().is_empty() {
        return f;
    }
    text::copy("plugin")
}

/// A cleaned name holds no dot, no white space and no control character.
proof fn lemma_cleaned(s: Seq<char>, i: int)
    requires
        0 <= i < cleaned(s).len(),
    ensures
        cleaned(s)[i] != '.',
        !text::is_space(cleaned(s)[i]),
        !text::is_control(cleaned(s)[i]),
{
    let w = without_controls(s);
    s.lemma_filter_pred(|c: char| !text::is_control(c), i);
    assert(cleaned(s)[i] == id_safe(w[i]));
}

/// An id segment is never empty, and holds no dot, no white space and no
/// control character.
pub proof fn law_names_are_id_safe(raw: Seq<char>, fallback: Seq<char>)
    ensures
        sanitized(raw, fallback).len() > 0,
        forall|i: int|
            0 <= i < sanitized(raw, fallback).len() ==> {
                let c = #[trigger] sanitized(raw, fallback)[i];
                c != '.' && !text::is_space(c) && !text::is_control(c)
            },
{
    reveal_strlit("plugin");
    assert forall|i: int| 0 <= i < sanitized(raw, fallback).len() implies ({
        let c = #[trigger] sanitized(raw, fallback)[i];
        c != '.' && !text::is_space(c) && !text::is_control(c)
    }) by {
        if cleaned(raw).len() > 0 {
            lemma_cleaned(raw, i);
        } else if cleaned(fallback).len() > 0 {
            lemma_cleaned(fallback, i);
        }
    }
}

/// The id of a plugin's row.
pub open spec fn item_id(name: Seq<char>, raw: Seq<char>) -> Seq<char> {
    "plugin."@ + name + "."@ + without_controls(raw)
}

/// The id of a plugin's row.
pub fn make_item_id(plugin_name: &str, raw_item_id: &str) -> (r: String)
    ensures
        r@ == item_id(plugin_name@, raw_item_id@),
{
    let head = text::join3("plugin.", plugin_name, ".");
    text::join(&head, &strip_controls(raw_item_id))
}

/// Whether an id is one of the rows of the plugin called `name`: the name
/// stands between the two dots, and something follows.
pub open spec fn owns(name: Seq<char>, id: Seq<char>) -> bool {
    let head = "plugin."@ + name + "."@;
    head.is_prefix_of(id) && id.len() > head.len()
}

/// The plugin's own id of the row with an id.
pub open spec fn own_id(name: Seq<char>, id: Seq<char>) -> Seq<char> {
    id.skip(("plugin."@ + name + "."@).len() as int)
}

/// Whether plugin `i` is the one that an id belongs to: of those that own it
/// the one with the longest name, the first where several are as long.
pub open spec fn belongs_to(names: Seq<Seq<char>>, id: Seq<char>, i: int) -> bool {
    &&& 0 <= i < names.len()
    &&& owns(names[i], id)
    &&& forall|j: int|
        0 <= j < names.len() && owns(#[trigger] names[j], id) ==> names[j].len() <= names[i].len()
    &&& forall|j: int| 0 <= j < i && owns(#[trigger] names[j], id) ==> names[j].len() < names[i].len()
}

/// What follows the name in an id, where the id is one of the rows of the
/// plugin called `name`.
fn item_after(rest: &str, name: &str) -> (r: Option<String>)
    ensures
        match r {
            Some(item) => owns(name@, "plugin."@ + rest@) && item@ == own_id(
                name@,
                "plugin."@ + rest@,
            ),
            None => !owns(name@, "plugin."@ + rest@),
        },
{
    let ghost id = "plugin."@ + rest@;
    let head = text::join(name, ".");
    let ghost full = "plugin."@ + name@ + "."@;
    proof {
        assert(full =~= "plugin."@ + head@);
        assert(head@.is_prefix_of(rest@) <==> full.is_prefix_of(id)) by {
            let n = "plugin."@.len() as int;
            if head@.is_prefix_of(rest@) {
                assert(full =~= id.subrange(0, full.len() as int)) by {
                    assert(head@ == rest@.subrange(0, head@.len() as int));
                    assert forall|k: int| 0 <= k < full.len() implies full[k] == id[k] by {
                        if k >= n {
                            assert(head@[k - n] == rest@.subrange(0, head@.len() as int)[k - n]);
                        }
                    }
                }
            }
            if full.is_prefix_of(id) {
                assert(head@ =~= rest@.subrange(0, head@.len() as int)) by {
                    assert(full == id.subrange(0, full.len() as int));
                    assert forall|k: int| 0 <= k < head@.len() implies head@[k] == rest@[k] by {
                        assert(full[k + n] == id.subrange(0, full.len() as int)[k + n]);
                    }
                }
            }
        }
    }
    match text::strip_prefix(rest, &head) {
        Some(item) => {
            proof {
                assert(item@ =~= own_id(name@, id));
            }
            if item.as_str().is_empty() {
                None
            } else {
                Some(item)
            }
        },
        None => None,
    }
}

/// Splits a row's id into the plugin it belongs to, by position, and the
/// plugin's own id of the row.
pub fn split_plugin_id(id: &str, names: &Vec<String>) -> (r: Option<(usize, String)>)
    ensures
        match r {
            Some((i, item)) => belongs_to(views(names@), id@, i as int) && item@ == own_id(
                names@[i as int]@,
                id@,
            ),
            None => forall|j: int| 0 <= j < names@.len() ==> !owns(#[trigger] names@[j]@, id@),
        },
{
    let ghost ns = views(names@);
    let rest = match text::strip_prefix(id, "plugin.") {
        Some(r) => r,
        None => {
            proof {
                assert forall|j: int| 0 <= j < names@.len() implies !owns(
                    #[trigger] names@[j]@,
                    id@,
                ) by {
                    if owns(names@[j]@, id@) {
                        let full = "plugin."@ + names@[j]@ + "."@;
                        let n = "plugin."@.len() as int;
                        assert("plugin."@ =~= id@.subrange(0, n)) by {
                            assert(full == id@.subrange(0, full.len() as int));
                            assert forall|k: int| 0 <= k < n implies "plugin."@[k] == id@[k] by {
                                assert(full[k] == id@.subrange(0, full.len() as int)[k]);
                            }
                        }
                    }
                }
            }
            return None;
        },
    };
    assert("plugin."@ + rest@ =~= id@);
    let mut best: Option<(usize, String)> = None;
    let mut i: usize = 0;
    while i < names.len()
        invariant
            i <= names@.len(),
            ns == views(names@),
            "plugin."@ + rest@ == id@,
            match best {
                Some((b, item)) => {
                    &&& b < i
                    &&& owns(ns[b as int], id@)
                    &&& item@ == own_id(names@[b as int]@, id@)
                    &&& forall|j: int|
                        0 <= j < i && owns(#[trigger] ns[j], id@) ==> ns[j].len()
                            <= ns[b as int].len()
                    &&& forall|j: int|
                        0 <= j < b && owns(#[trigger] ns[j], id@) ==> ns[j].len()
                            < ns[b as int].len()
                },
                None => forall|j: int| 0 <= j < i ==> !owns(#[trigger] ns[j], id@),
            },
        decreases names@.len() - i,
    {
        let name = &names[i];
        assert(ns[i as int] == name@);
        let candidate = item_after(&rest, name);
        match candidate {
            None => {},
            Some(item) => {
                let better = match &best {
                    None => true,
                    Some((prev, _)) => {
                        assert(ns[*prev as int] == names@[*prev as int]@);
                        names[*prev].as_str().unicode_len() < name.as_str().unicode_len()
                    },
                };
                if better {
                    best = Some((i, item));
                }
            },
        }
        i = i + 1;
    }
    proof {
        if best is None {
            assert forall|j: int| 0 <= j < names@.len() implies !owns(
                #[trigger] names@[j]@,
                id@,
            ) by {
                assert(ns[j] == names@[j]@);
            }
        }
    }
    best
}

/// A row's id is owned by no name but the one that it was made with, where
/// neither holds a dot.
proof fn lemma_one_owner(a: Seq<char>, b: Seq<char>, raw: Seq<char>)
    requires
        !a.contains('.'),
        !b.contains('.'),
        owns(b, item_id(a, raw)),
    ensures
        a == b,
{
    reveal_strlit(".");
    let id = item_id(a, raw);
    let other = "plugin."@ + b + "."@;
    let n = "plugin."@.len() as int;
    assert(other == id.subrange(0, other.len() as int));
    assert forall|k: int| 0 <= k < other.len() implies other[k] == id[k] by {
        assert(other[k] == id.subrange(0, other.len() as int)[k]);
    }
    if a.len() < b.len() {
        assert(other[n + a.len()] == b[a.len() as int]);
        assert(id[n + a.len()] == "."@[0]);
        assert(b.contains('.'));
    }
    if b.len() < a.len() {
        assert(other[n + b.len()] == "."@[0]);
        assert(id[n + b.len()] == a[b.len() as int]);
        assert(a.contains('.'));
    }
    assert(a =~= b) by {
        assert forall|k: int| 0 <= k < a.len() && a.len() == b.len() implies a[k] == b[k] by {
            assert(other[n + k] == id[n + k]);
        }
    }
}

/// A plugin owns the ids that are made with its name, and reads its own id
/// back from them.
proof fn lemma_own_rows(name: Seq<char>, raw: Seq<char>)
    requires
        without_controls(raw).len() > 0,
    ensures
        owns(name, item_id(name, raw)),
        own_id(name, item_id(name, raw)) == without_controls(raw),
{
    let id = item_id(name, raw);
    let head = "plugin."@ + name + "."@;
    assert(head =~= id.subrange(0, head.len() as int));
    assert(own_id(name, id) =~= without_controls(raw));
}

/// The first position of a name, where it stands at one up to `at`.
proof fn lemma_first_position(names: Seq<Seq<char>>, at: int) -> (first: int)
    requires
        0 <= at < names.len(),
    ensures
        0 <= first <= at,
        names[first] == names[at],
        forall|j: int| 0 <= j < first ==> #[trigger] names[j] != names[at],
    decreases at,
{
    if exists|j: int| 0 <= j < at && #[trigger] names[j] == names[at] {
        let j = choose|j: int| 0 <= j < at && #[trigger] names[j] == names[at];
        lemma_first_position(names, j)
    } else {
        at
    }
}

/// The id of a plugin's row leads back to a plugin of that name, the first of
/// them, and to the plugin's own id, where names hold no dots.
pub proof fn law_item_ids_lead_back(names: Seq<Seq<char>>, i: int, raw: Seq<char>)
    requires
        0 <= i < names.len(),
        forall|j: int| 0 <= j < names.len() ==> !(#[trigger] names[j]).contains('.'),
        without_controls(raw).len() > 0,
    ensures
        exists|k: int| #[trigger] belongs_to(names, item_id(names[i], raw), k),
        forall|k: int| #[trigger]
            belongs_to(names, item_id(names[i], raw), k) ==> {
                &&& names[k] == names[i]
                &&& forall|j: int| 0 <= j < k ==> #[trigger] names[j] != names[i]
                &&& own_id(names[k], item_id(names[i], raw)) == without_controls(raw)
            },
{
    let id = item_id(names[i], raw);
    lemma_own_rows(names[i], raw);
    assert forall|j: int| 0 <= j < names.len() && owns(#[trigger] names[j], id) implies names[j]
        == names[i] by {
        lemma_one_owner(names[i], names[j], raw);
    }
    let first = lemma_first_position(names, i);
    assert(belongs_to(names, id, first));
}

/// One discovered plugin executable, not necessarily running.
#[derive(Debug, Clone, PartialEq, Eq)]
pub struct PluginDef {
    /// The executable's file name.
    pub file_name: String,
    /// Absolute path to the executable.
    pub path: String,
}

/// What a [`PluginDef`] holds.
#[verifier::ext_equal]
pub struct DefView {
    pub file_name: Seq<char>,
    pub path: Seq<char>,
}

impl View for PluginDef {
    type V = DefView;

    open spec fn view(&self) -> DefView {
        DefView { file_name: self.file_name@, path: self.path@ }
    }
}

impl PluginDef {
    /// A copy of the definition.
    pub fn copied(&self) -> (r: PluginDef)
        ensures
            r == *self,
    {
        PluginDef { file_name: self.file_name.clone(), path: self.path.clone() }
    }
}

impl Ranked for PluginDef {
    open spec fn ahead(a: DefView, b: DefView) -> bool {
        text::lex_before(a.file_name, b.file_name)
    }

    proof fn lemma_asymmetric(a: DefView, b: DefView) {
        text::lemma_lex_trichotomy(a.file_name, b.file_name);
    }

    proof fn lemma_separates(a: DefView, b: DefView, c: DefView) {
        text::lemma_lex_separates(a.file_name, b.file_name, c.file_name);
    }

    fn is_ahead(&self, other: &PluginDef) -> bool {
        text::before(&self.file_name, &other.file_name)
    }
}

/// A directory entry as the discovery finds it.
#[derive(Debug)]
pub struct Found {
    pub def: PluginDef,
    /// Whether it is a regular file, symlinks followed.
    pub is_file: bool,
    /// Its permission bits.
    pub mode: u32,
}

/// The plugins among entries, in the entries' order: regular files with any
/// execute bit set.
pub open spec fn plugins_among(found: Seq<Found>) -> Seq<DefView>
    decreases found.len(),
{
    if found.len() == 0 {
        Seq::empty()
    } else if found.last().is_file && found.last().mode & 0o111 != 0 {
        plugins_among(found.drop_last()).push(found.last().def@)
    } else {
        plugins_among(found.drop_last())
    }
}

/// Plugins in discovery order: by file name.
pub open spec fn in_order(defs: Seq<DefView>) -> Seq<DefView> {
    sorted_positions::<PluginDef>(defs).map_values(|i: int| defs[i])
}

/// The plugins among directory entries, by file name.
pub fn discover(found: &Vec<Found>) -> (r: Vec<PluginDef>)
    ensures
        views(r@) == in_order(plugins_among(found@)),
{
    let mut defs: Vec<PluginDef> = Vec::new();
    let mut i: usize = 0;
    assert(found@.take(0) =~= Seq::<Found>::empty());
    while i < found.len()
        invariant
            i <= found@.len(),
            views(defs@) == plugins_among(found@.take(i as int)),
        decreases found@.len() - i,
    {
        let f = &found[i];
        let ghost before = views(defs@);
        proof {
            assert(found@.take(i + 1).drop_last() =~= found@.take(i as int));
        }
        if f.is_file && f.mode & 0o111 != 0 {
            defs.push(f.def.copied());
            assert(views(defs@) =~= before.push(f.def@));
        }
        i = i + 1;
    }
    assert(found@.take(i as int) =~= found@);
    let p = order::sort(&defs);
    let mut out: Vec<PluginDef> = Vec::new();
    let mut k: usize = 0;
    while k < p.len()
        invariant
            k <= p@.len(),
            out@.len() == k,
            forall|j: int| 0 <= j < p@.len() ==> #[trigger] p@[j] < defs@.len(),
            forall|j: int| 0 <= j < k ==> #[trigger] out@[j] == defs@[p@[j] as int],
        decreases p@.len() - k,
    {
        out.push(defs[p[k]].copied());
        k = k + 1;
    }
    assert(views(out@) =~= ints(p@).map_values(|i: int| views(defs@)[i]));
    out
}

/// Plugins are discovered by file name, whatever order the directory lists
/// them in.
pub proof fn law_discovery_order(defs: Seq<DefView>, i: int, j: int)
    requires
        0 <= i < j < in_order(defs).len(),
    ensures
        !PluginDef::ahead(in_order(defs)[j], in_order(defs)[i]),
{
    let p = sorted_positions::<PluginDef>(defs);
    order::lemma_sorted_positions::<PluginDef>(defs);
    assert(order::position_ahead::<PluginDef>(defs, p[i], p[j]));
    PluginDef::lemma_asymmetric(defs[p[i]], defs[p[j]]);
}

/// What a plugin says of itself in the handshake.
#[derive(Debug, Clone, PartialEq, Eq)]
pub struct Manifest {
    pub name: String,
    pub keyword: String,
}

/// What came of the handshake.
#[derive(Debug)]
pub enum Handshake {
    /// The process could not be started.
    NotStarted(String),
    /// The request could not be written.
    WriteFailed(String),
    /// No line came back.
    NoLine(String),
    /// The line is no proper response.
    BadResponse(String),
    /// A response with an id, and its manifest or why it does not read.
    Response { id: i128, manifest: Result<Manifest, String> },
}

/// The name and the keyword that a handshake gives, with the name made
/// id-safe, or why it gives none.
pub open spec fn accepted(outcome: Handshake, file_name: Seq<char>) -> Result<
    (Seq<char>, Seq<char>),
    Seq<char>,
> {
    match outcome {
        Handshake::NotStarted(e) => Err("cannot spawn: "@ + e@),
        Handshake::WriteFailed(e) => Err("stdin write failed: "@ + e@),
        Handshake::NoLine(e) => Err(e@),
        Handshake::BadResponse(e) => Err("bad manifest response: "@ + e@),
        Handshake::Response { id, manifest } => if id != HANDSHAKE_ID {
            Err(
                "manifest response id "@ + text::signed_decimal(id as int)
                    + " does not match request id 1"@,
            )
        } else {
            match manifest {
                Err(e) => Err("bad manifest: "@ + e@),
                Ok(given) => Ok((sanitized(given.name@, file_name), given.keyword@)),
            }
        },
    }
}

/// The manifest that a handshake gives, with its name made id-safe, or why it
/// gives none.
pub fn accept_manifest(outcome: Handshake, file_name: &str) -> (r: Result<Manifest, String>)
    ensures
        match accepted(outcome, file_name@) {
            Ok((name, keyword)) => r matches Ok(m) && m.name@ == name && m.keyword@ == keyword,
            Err(why) => r matches Err(e) && e@ == why,
        },
{
    match outcome {
        Handshake::NotStarted(e) => Err(text::join("cannot spawn: ", &e)),
        Handshake::WriteFailed(e) => Err(text::join("stdin write failed: ", &e)),
        Handshake::NoLine(e) => Err(e),
        Handshake::BadResponse(e) => Err(text::join("bad manifest response: ", &e)),
        Handshake::Response { id, manifest } => {
            if id != HANDSHAKE_ID {
                return Err(
                    text::join3(
                        "manifest response id ",
                        &text::wide_signed_decimal_of(id),
                        " does not match request id 1",
                    ),
                );
            }
            match manifest {
                Err(e) => Err(text::join("bad manifest: ", &e)),
                Ok(m) => Ok(
                    Manifest { name: sanitize_name(&m.name, file_name), keyword: m.keyword },
                ),
            }
        },
    }
}

/// A name that a handshake gives holds no dot.
proof fn lemma_accepted_names(outcome: Handshake, file_name: Seq<char>)
    ensures
        accepted(outcome, file_name) matches Ok((name, _)) ==> !name.contains('.'),
{
    if let Handshake::Response { id: _, manifest: Ok(given) } = outcome {
        law_names_are_id_safe(given.name@, file_name);
    }
}

/// A failed call. `fatal` means that the process is unusable.
#[derive(Debug, PartialEq, Eq)]
pub struct CallFail {
    pub fatal: bool,
    pub msg: String,
}

impl CallFail {
    /// A failure that makes the process unusable.
    pub fn fatal(msg: String) -> (r: CallFail)
        ensures
            r == (CallFail { fatal: true, msg }),
    {
        CallFail { fatal: true, msg }
    }

    /// A well-formed error response from a plugin that lives on.
    pub fn soft(msg: String) -> (r: CallFail)
        ensures
            r == (CallFail { fatal: false, msg }),
    {
        CallFail { fatal: false, msg }
    }
}

/// What came of a request to a plugin.
#[derive(Debug)]
pub enum Reply<V> {
    /// The request could not be written.
    WriteFailed(String),
    /// No line came back.
    NoLine(String),
    /// The line is no proper response.
    BadResponse(String),
    /// An error response.
    Remote { code: i128, message: String },
    /// A result for the request with an id.
    Result { id: i128, value: V },
}

/// What a reply means for the request with an id. Calls are strictly
/// sequential, so a response to another request is a protocol violation.
pub fn call<V>(reply: Reply<V>, expect_id: i128) -> (r: Result<V, CallFail>)
    ensures
        match reply {
            Reply::WriteFailed(e) => r matches Err(f) && f.fatal && f.msg@
                == "stdin write failed: "@ + e@,
            Reply::NoLine(e) => r == Err::<V, CallFail>(CallFail { fatal: true, msg: e }),
            Reply::BadResponse(e) => r matches Err(f) && f.fatal && f.msg@
                == "protocol violation: "@ + e@,
            Reply::Remote { code, message } => r matches Err(f) && !f.fatal && f.msg@
                == "plugin error "@ + text::signed_decimal(code as int) + (": "@ + message@),
            Reply::Result { id, value } => if id == expect_id {
                r == Ok::<V, CallFail>(value)
            } else {
                r matches Err(f) && f.fatal && f.msg@ == "response id "@ + text::signed_decimal(
                    id as int,
                ) + (" does not match request id "@ + text::signed_decimal(expect_id as int))
            },
        },
{
    match reply {
        Reply::WriteFailed(e) => Err(CallFail::fatal(text::join("stdin write failed: ", &e))),
        Reply::NoLine(e) => Err(CallFail::fatal(e)),
        Reply::BadResponse(e) => Err(CallFail::fatal(text::join("protocol violation: ", &e))),
        Reply::Remote { code, message } => Err(
            CallFail::soft(
                text::join3(
                    "plugin error ",
                    &text::wide_signed_decimal_of(code),
                    &text::join(": ", &message),
                ),
            ),
        ),
        Reply::Result { id, value } => if id == expect_id {
            Ok(value)
        } else {
            Err(
                CallFail::fatal(
                    text::join3(
                        "response id ",
                        &text::wide_signed_decimal_of(id),
                        &text::join(
                            " does not match request id ",
                            &text::wide_signed_decimal_of(expect_id),
                        ),
                    ),
                ),
            )
        },
    }
}

/// What a wait for a line brought.
#[derive(Debug)]
pub enum Received {
    /// A line.
    Line(String),
    /// The stream is over, for this reason.
    Ended(String),
    /// Nothing before the deadline.
    Nothing,
}

/// What to do after a wait for a line.
#[derive(Debug, PartialEq, Eq)]
pub enum Wait {
    /// Take this line.
    Take(String),
    /// Wait on, within the same deadline.
    Again,
    /// Give up.
    Fail(String),
}

/// What to do after a wait for a line: blank lines are passed over, and the
/// deadline covers the whole wait.
pub fn recv_line(received: Received) -> (r: Wait)
    ensures
        match received {
            Received::Line(l) => if text::trimmed(l@).len() > 0 {
                r == Wait::Take(l)
            } else {
                r is Again
            },
            Received::Ended(why) => r matches Wait::Fail(m) && m@ == "plugin stdout ended: "@
                + why@,
            Received::Nothing => r matches Wait::Fail(m) && m@ == "no response within 2s"@,
        },
{
    match received {
        Received::Line(l) => if text::trim(&l).as_str().is_empty() {
            Wait::Again
        } else {
            Wait::Take(l)
        },
        Received::Ended(why) => Wait::Fail(text::join("plugin stdout ended: ", &why)),
        Received::Nothing => Wait::Fail(text::copy("no response within 2s")),
    }
}

/// The text without the line ends that it ends in.
pub open spec fn without_line_end(s: Seq<char>) -> Seq<char>
    decreases s.len(),
{
    if s.len() > 0 && (s.last() == '\n' || s.last() == '\r') {
        without_line_end(s.drop_last())
    } else {
        s
    }
}

/// The number of bytes of a line, without the line feed that it ends in.
pub open spec fn content_length(buf: Seq<u8>) -> int {
    if buf.len() > 0 && buf.last() == 10 {
        buf.len() - 1
    } else {
        buf.len() as int
    }
}

/// The line that was read, up to and with its line feed, or why reading stops
/// there: an empty read is the end of the stream, and lines that are too long
/// or no UTF-8 are fatal.
pub fn read_line(read: Result<Vec<u8>, String>) -> (r: Result<String, String>)
    ensures
        match read {
            Err(why) => r matches Err(e) && e@ == "read failed: "@ + why@,
            Ok(buf) => if buf@.len() == 0 {
                r matches Err(e) && e@ == "end of stream"@
            } else if content_length(buf@) > MAX_LINE_BYTES {
                r matches Err(e) && e@ == "response line exceeds 1 MiB"@
            } else if !vstd::utf8::valid_utf8(buf@) {
                r matches Err(e) && e@ == "response is not UTF-8"@
            } else {
                r matches Ok(line) && line@ == without_line_end(vstd::utf8::decode_utf8(buf@))
            },
        },
{
    let buf = match read {
        Ok(b) => b,
        Err(why) => {
            return Err(text::join("read failed: ", &why));
        },
    };
    let n: usize = buf.len();
    if n == 0 {
        return Err(text::copy("end of stream"));
    }
    let content: usize = if buf[n - 1] == 10 {
        n - 1
    } else {
        n
    };
    if content > MAX_LINE_BYTES {
        return Err(text::copy("response line exceeds 1 MiB"));
    }
    let line = match text::from_utf8(buf) {
        Some(l) => l,
        None => {
            return Err(text::copy("response is not UTF-8"));
        },
    };
    let x = text::chars_of(&line);
    let mut hi: usize = x.len();
    assert(x@.take(hi as int) =~= x@);
    while hi > 0 && (x[hi - 1] == '\n' || x[hi - 1] == '\r')
        invariant
            hi <= x@.len(),
            x@ == line@,
            without_line_end(x@.take(hi as int)) == without_line_end(line@),
        decreases hi,
    {
        assert(x@.take(hi as int).drop_last() =~= x@.take(hi - 1));
        hi = hi - 1;
    }
    Ok(text::string_of(&x, 0, hi))
}

/// A running plugin as the host keeps it: its path, its manifest, and the id
/// of the next request.
#[derive(Debug, Clone, PartialEq, Eq)]
pub struct Live {
    pub path: String,
    pub name: String,
    pub keyword: String,
    pub next_id: i128,
}

/// The plugin host's state.
pub struct HostState {
    /// Everything that discovery found, by file name.
    pub defs: Vec<PluginDef>,
    /// Running plugins.
    pub live: Vec<Live>,
    /// Paths of plugins that are given up for the session.
    pub blacklist: Vec<String>,
}

/// What a plugin needs before it can be called.
#[derive(Debug, PartialEq, Eq)]
pub enum Need {
    /// It is given up for the session.
    Disabled(String),
    /// Nothing: it is running.
    Ready,
    /// It has to be started, under this name.
    Spawn { file_name: String },
}

/// Which try of a call: a fresh start of the plugin stands before the second.
#[derive(Debug, Clone, Copy, PartialEq, Eq)]
pub enum Attempt {
    First,
    Second,
}

/// The try that follows a failed one, if any.
pub open spec fn next_attempt(attempt: Attempt, fail: CallFail) -> Option<Attempt> {
    if fail.fatal && attempt is First {
        Some(Attempt::Second)
    } else {
        None
    }
}

/// How many tries a call takes from `attempt` on, where they fail as `fails`
/// says, one after the other, and one that is not in it succeeds.
pub open spec fn tries(attempt: Attempt, fails: Seq<CallFail>) -> nat
    decreases fails.len(),
{
    if fails.len() == 0 {
        1
    } else {
        match next_attempt(attempt, fails[0]) {
            Some(next) => 1 + tries(next, fails.skip(1)),
            None => 1,
        }
    }
}

/// What follows a failed call.
#[derive(Debug, PartialEq, Eq)]
pub enum AfterFail {
    /// The call failed for good.
    Fail(String),
    /// Make sure that the plugin runs, and call once more.
    Retry(Attempt),
    /// The call failed for good, and the plugin is given up: report the second
    /// text.
    GiveUp(String, String),
}

/// How a search for a keyword's plugin goes on.
#[derive(Debug, PartialEq, Eq)]
pub enum KeywordSearch {
    /// The plugin at this path has the keyword.
    Found(String),
    /// The plugin at this position has to be started before it can be asked.
    Spawn(usize),
    /// No plugin has the keyword.
    Missing,
}

impl HostState {
    /// Whether the plugin at a path is running.
    pub open spec fn is_live(self, path: Seq<char>) -> bool {
        exists|i: int| self.live_at(i, path)
    }

    /// Whether the running plugin at position `i` is the one at a path.
    pub open spec fn live_at(self, i: int, path: Seq<char>) -> bool {
        0 <= i < self.live@.len() && self.live@[i].path@ == path
    }

    /// Whether the plugin at a path is given up.
    pub open spec fn is_disabled(self, path: Seq<char>) -> bool {
        views(self.blacklist@).contains(path)
    }

    /// The names of the running plugins.
    pub open spec fn names(self) -> Seq<Seq<char>> {
        self.live@.map_values(|l: Live| l.name@)
    }

    /// No plugin runs twice, none that is given up runs, and no name of a
    /// running one holds a dot.
    pub open spec fn well_formed(self) -> bool {
        &&& forall|i: int, j: int, p: Seq<char>|
            #[trigger] self.live_at(i, p) && #[trigger] self.live_at(j, p) ==> i == j
        &&& forall|i: int|
            0 <= i < self.live@.len() ==> !self.is_disabled((#[trigger] self.live@[i]).path@)
        &&& forall|i: int|
            0 <= i < self.live@.len() ==> !(#[trigger] self.live@[i]).name@.contains('.')
    }

    /// Whether `next` is the host after a try of a call to the plugin at a path
    /// has failed.
    pub open spec fn fails_to(
        self,
        path: Seq<char>,
        attempt: Attempt,
        fail: CallFail,
        next: HostState,
    ) -> bool {
        &&& next.defs == self.defs
        &&& if !fail.fatal {
            next.live == self.live && next.blacklist == self.blacklist
        } else {
            &&& !next.is_live(path)
            &&& forall|p: Seq<char>| p != path ==> next.is_live(p) == self.is_live(p)
            &&& self.is_put_down(path, next.live@)
            &&& if attempt is Second {
                views(next.blacklist@) == views(self.blacklist@).push(path)
            } else {
                next.blacklist == self.blacklist
            }
        }
    }

    /// Whether `rest` is what runs once the plugin at a path no longer does:
    /// all others as they were, in their order.
    pub open spec fn is_put_down(self, path: Seq<char>, rest: Seq<Live>) -> bool {
        if self.is_live(path) {
            exists|i: int| #[trigger] self.live_at(i, path) && rest == self.live@.remove(i)
        } else {
            rest == self.live@
        }
    }

    /// The file name under which the plugin at a path was found.
    pub open spec fn name_at(self, path: Seq<char>) -> Seq<char> {
        file_name_at(self.defs@, path)
    }

    /// Nothing found and nothing running.
    pub fn new() -> (r: HostState)
        ensures
            r.well_formed(),
            r.defs@.len() == 0,
            r.live@.len() == 0,
            r.blacklist@.len() == 0,
    {
        HostState { defs: Vec::new(), live: Vec::new(), blacklist: Vec::new() }
    }

    /// Takes over what discovery found. Nothing is started.
    pub fn start(&mut self, found: &Vec<Found>)
        ensures
            views(final(self).defs@) == in_order(plugins_among(found@)),
            final(self).live == old(self).live,
            final(self).blacklist == old(self).blacklist,
            old(self).well_formed() ==> final(self).well_formed(),
    {
        self.defs = discover(found);
        proof {
            let a = *old(self);
            let b = *self;
            assert(forall|i: int, p: Seq<char>| b.live_at(i, p) == a.live_at(i, p));
            assert(forall|p: Seq<char>| b.is_disabled(p) == a.is_disabled(p));
        }
    }

    /// Where the running plugin at a path stands.
    fn find_live(&self, path: &str) -> (r: Option<usize>)
        ensures
            match r {
                Some(i) => self.live_at(i as int, path@),
                None => !self.is_live(path@),
            },
    {
        let mut i: usize = 0;
        while i < self.live.len()
            invariant
                i <= self.live@.len(),
                forall|k: int| 0 <= k < i ==> !self.live_at(k, path@),
            decreases self.live@.len() - i,
        {
            if text::same(&self.live[i].path, path) {
                return Some(i);
            }
            i = i + 1;
        }
        None
    }

    /// Whether the plugin at a path is given up.
    pub fn disabled(&self, path: &str) -> (r: bool)
        ensures
            r == self.is_disabled(path@),
    {
        let mut i: usize = 0;
        while i < self.blacklist.len()
            invariant
                i <= self.blacklist@.len(),
                forall|k: int| 0 <= k < i ==> #[trigger] views(self.blacklist@)[k] != path@,
            decreases self.blacklist@.len() - i,
        {
            if text::same(&self.blacklist[i], path) {
                assert(views(self.blacklist@)[i as int] == path@);
                return true;
            }
            i = i + 1;
        }
        false
    }

    /// What the plugin at a path needs before it can be called.
    pub fn ensure_live(&self, path: &str) -> (r: Need)
        ensures
            if self.is_disabled(path@) {
                r matches Need::Disabled(m) && m@ == "plugin "@ + path@
                    + " is disabled for this session"@
            } else if self.is_live(path@) {
                r is Ready
            } else {
                r matches Need::Spawn { file_name } && file_name@ == self.name_at(path@)
            },
    {
        if self.disabled(path) {
            return Need::Disabled(text::join3("plugin ", path, " is disabled for this session"));
        }
        if self.find_live(path).is_some() {
            return Need::Ready;
        }
        Need::Spawn { file_name: self.found_as(path) }
    }

    /// The file name under which the plugin at a path was found.
    fn found_as(&self, path: &str) -> (r: String)
        ensures
            r@ == self.name_at(path@),
    {
        let mut i: usize = 0;
        assert(self.defs@.skip(0) =~= self.defs@);
        while i < self.defs.len()
            invariant
                i <= self.defs@.len(),
                self.name_at(path@) == file_name_at(self.defs@.skip(i as int), path@),
            decreases self.defs@.len() - i,
        {
            if text::same(&self.defs[i].path, path) {
                return text::copy(&self.defs[i].file_name);
            }
            assert(self.defs@.skip(i as int).skip(1) =~= self.defs@.skip(i + 1));
            i = i + 1;
        }
        text::copy("plugin")
    }

    /// Takes over how a start went: a plugin that answered the handshake runs
    /// from then on, any other is given up. The result of a failed start is
    /// the reason and the line to report.
    pub fn spawned(&mut self, path: &str, outcome: Handshake) -> (r: Result<(), (String, String)>)
        requires
            old(self).well_formed(),
            !old(self).is_live(path@),
            !old(self).is_disabled(path@),
        ensures
            final(self).well_formed(),
            final(self).defs == old(self).defs,
            forall|p: Seq<char>| old(self).is_disabled(p) ==> final(self).is_disabled(p),
            match accepted(outcome, old(self).name_at(path@)) {
                Ok((name, keyword)) => {
                    &&& r is Ok
                    &&& final(self).blacklist == old(self).blacklist
                    &&& final(self).live@.len() == old(self).live@.len() + 1
                    &&& final(self).live@.drop_last() == old(self).live@
                    &&& final(self).live@.last().path@ == path@
                    &&& final(self).live@.last().name@ == name
                    &&& final(self).live@.last().keyword@ == keyword
                    &&& final(self).live@.last().next_id == HANDSHAKE_ID + 1
                },
                Err(e) => {
                    &&& r matches Err((why, line)) && why@ == e && line@ == disabled_line(
                        path@,
                        e,
                    )
                    &&& final(self).live == old(self).live
                    &&& views(final(self).blacklist@) == views(old(self).blacklist@).push(path@)
                },
            },
    {
        let file_name = self.found_as(path);
        match accept_manifest(outcome, &file_name) {
            Ok(m) => {
                self.live.push(
                    Live {
                        path: text::copy(path),
                        name: m.name,
                        keyword: m.keyword,
                        next_id: HANDSHAKE_ID + 1,
                    },
                );
                proof {
                    let a = *old(self);
                    let b = *self;
                    let n = a.live@.len() as int;
                    assert(b.live@.drop_last() =~= a.live@);
                    lemma_accepted_names(outcome, file_name@);
                    assert forall|i: int, p: Seq<char>| b.live_at(i, p) <==> (a.live_at(i, p) || (i
                        == n && p == path@)) by {
                    }
                    assert forall|i: int, j: int, p: Seq<char>| #[trigger]
                        b.live_at(i, p) && #[trigger] b.live_at(j, p) implies i == j by {
                        if i == n && j != n {
                            assert(a.live_at(j, path@));
                        }
                        if j == n && i != n {
                            assert(a.live_at(i, path@));
                        }
                    }
                    assert forall|i: int| 0 <= i < b.live@.len() implies !b.is_disabled(
                        (#[trigger] b.live@[i]).path@,
                    ) by {
                        if i < n {
                            assert(b.live@[i] == a.live@[i]);
                        }
                    }
                    assert forall|i: int| 0 <= i < b.live@.len() implies !(#[trigger] b.live@[i])
                        .name@.contains('.') by {
                        if i < n {
                            assert(b.live@[i] == a.live@[i]);
                        }
                    }
                }
                Ok(())
            },
            Err(e) => {
                let line = disabled_report(path, &e);
                self.disable(path);
                Err((e, line))
            },
        }
    }

    /// Gives up the plugin at a path for the session.
    fn disable(&mut self, path: &str)
        requires
            old(self).well_formed(),
            !old(self).is_live(path@),
        ensures
            final(self).well_formed(),
            final(self).defs == old(self).defs,
            final(self).live == old(self).live,
            views(final(self).blacklist@) == views(old(self).blacklist@).push(path@),
            forall|p: Seq<char>| old(self).is_disabled(p) ==> final(self).is_disabled(p),
    {
        self.blacklist.push(text::copy(path));
        proof {
            let a = *old(self);
            let b = *self;
            let x = views(a.blacklist@);
            let y = views(b.blacklist@);
            assert(y =~= x.push(path@));
            assert forall|p: Seq<char>| a.is_disabled(p) implies b.is_disabled(p) by {
                let k = choose|k: int| 0 <= k < x.len() && x[k] == p;
                assert(y[k] == p);
            }
            assert(forall|i: int, p: Seq<char>| b.live_at(i, p) == a.live_at(i, p));
            assert forall|i: int| 0 <= i < b.live@.len() implies !b.is_disabled(
                (#[trigger] b.live@[i]).path@,
            ) by {
                let p = b.live@[i].path@;
                assert(a.live@[i] == b.live@[i]);
                assert(!a.is_disabled(p));
                if y.contains(p) {
                    let k = choose|k: int| 0 <= k < y.len() && y[k] == p;
                    if k < x.len() {
                        assert(x[k] == p);
                    } else {
                        assert(a.live_at(i, path@));
                    }
                }
            }
        }
    }

    /// The id for a request to the plugin at a path, which is used up by it.
    /// None where the plugin does not run.
    pub fn next_request(&mut self, path: &str) -> (r: Option<i128>)
        requires
            old(self).well_formed(),
            forall|i: int| 0 <= i < old(self).live@.len() ==> (#[trigger] old(self).live@[i]).next_id
                < i128::MAX,
        ensures
            final(self).well_formed(),
            final(self).defs == old(self).defs,
            final(self).blacklist == old(self).blacklist,
            match r {
                Some(id) => exists|i: int|
                    {
                        &&& #[trigger] old(self).live_at(i, path@)
                        &&& id == old(self).live@[i].next_id
                        &&& final(self).live@ == old(self).live@.update(
                            i,
                            Live { next_id: (id + 1) as i128, ..old(self).live@[i] },
                        )
                    },
                None => !old(self).is_live(path@) && final(self).live == old(self).live,
            },
    {
        match self.find_live(path) {
            None => None,
            Some(i) => {
                let id: i128 = self.live[i].next_id;
                let l = Live {
                    path: self.live[i].path.clone(),
                    name: self.live[i].name.clone(),
                    keyword: self.live[i].keyword.clone(),
                    next_id: id + 1,
                };
                self.live.set(i, l);
                proof {
                    let a = *old(self);
                    let b = *self;
                    assert(a.live_at(i as int, path@));
                    assert forall|k: int, p: Seq<char>| b.live_at(k, p) == a.live_at(k, p) by {
                    }
                    assert forall|k: int| 0 <= k < b.live@.len() implies !b.is_disabled(
                        (#[trigger] b.live@[k]).path@,
                    ) by {
                        assert(a.live@[k].path@ == b.live@[k].path@);
                    }
                }
                Some(id)
            },
        }
    }

    /// What follows a failed try of a call. A soft failure ends the call and
    /// leaves the plugin running. A fatal one puts the process down: the first
    /// leads to a fresh start, the second gives the plugin up.
    pub fn call_plugin(&mut self, path: &str, attempt: Attempt, fail: CallFail) -> (r: AfterFail)
        requires
            old(self).well_formed(),
        ensures
            final(self).well_formed(),
            forall|p: Seq<char>| old(self).is_disabled(p) ==> final(self).is_disabled(p),
            old(self).fails_to(path@, attempt, fail, *final(self)),
            match next_attempt(attempt, fail) {
                Some(next) => r == AfterFail::Retry(next),
                None => if fail.fatal {
                    r matches AfterFail::GiveUp(m, line) && m == fail.msg && line@
                        == disabled_line(path@, fail.msg@)
                } else {
                    r == AfterFail::Fail(fail.msg)
                },
            },
    {
        if !fail.fatal {
            return AfterFail::Fail(fail.msg);
        }
        self.put_down(path);
        if let Attempt::Second = attempt {
            let ghost mid = *self;
            let line = disabled_report(path, &fail.msg);
            self.disable(path);
            proof {
                assert forall|p: Seq<char>| self.is_live(p) == mid.is_live(p) by {
                    if self.is_live(p) {
                        let i = choose|i: int| self.live_at(i, p);
                        assert(mid.live_at(i, p));
                    }
                    if mid.is_live(p) {
                        let i = choose|i: int| mid.live_at(i, p);
                        assert(self.live_at(i, p));
                    }
                }
            }
            AfterFail::GiveUp(fail.msg, line)
        } else {
            AfterFail::Retry(Attempt::Second)
        }
    }

    /// Takes the plugin at a path out of the running ones.
    fn put_down(&mut self, path: &str)
        requires
            old(self).well_formed(),
        ensures
            final(self).well_formed(),
            final(self).defs == old(self).defs,
            final(self).blacklist == old(self).blacklist,
            !final(self).is_live(path@),
            forall|p: Seq<char>| p != path@ ==> final(self).is_live(p) == old(self).is_live(p),
            old(self).is_put_down(path@, final(self).live@),
    {
        match self.find_live(path) {
            None => {},
            Some(at) => {
                self.live.remove(at);
                proof {
                    let a = *old(self);
                    let b = *self;
                    let n = at as int;
                    assert(a.live_at(n, path@));
                    assert forall|i: int, p: Seq<char>| b.live_at(i, p) <==> (if i < n {
                        a.live_at(i, p)
                    } else {
                        i >= n && a.live_at(i + 1, p)
                    }) by {
                    }
                    assert forall|i: int, j: int, p: Seq<char>| #[trigger]
                        b.live_at(i, p) && #[trigger] b.live_at(j, p) implies i == j by {
                        let x = if i < n {
                            i
                        } else {
                            i + 1
                        };
                        let y = if j < n {
                            j
                        } else {
                            j + 1
                        };
                        assert(a.live_at(x, p) && a.live_at(y, p));
                    }
                    assert forall|i: int| 0 <= i < b.live@.len() implies !b.is_disabled(
                        (#[trigger] b.live@[i]).path@,
                    ) by {
                        let x = if i < n {
                            i
                        } else {
                            i + 1
                        };
                        assert(a.live@[x] == b.live@[i]);
                    }
                    if b.is_live(path@) {
                        let i = choose|i: int| b.live_at(i, path@);
                        let x = if i < n {
                            i
                        } else {
                            i + 1
                        };
                        assert(a.live_at(x, path@));
                    }
                    assert forall|p: Seq<char>| p != path@ implies b.is_live(p) == a.is_live(p) by {
                        if a.is_live(p) {
                            let i = choose|i: int| a.live_at(i, p);
                            let x = if i < n {
                                i
                            } else {
                                i - 1
                            };
                            assert(b.live_at(x, p));
                        }
                        if b.is_live(p) {
                            let i = choose|i: int| b.live_at(i, p);
                            let x = if i < n {
                                i
                            } else {
                                i + 1
                            };
                            assert(a.live_at(x, p));
                        }
                    }
                }
            },
        }
    }
}

/// The file name under which the plugin at a path was found, or else a fixed
/// word.
pub open spec fn file_name_at(defs: Seq<PluginDef>, path: Seq<char>) -> Seq<char>
    decreases defs.len(),
{
    if defs.len() == 0 {
        "plugin"@
    } else if defs[0].path@ == path {
        defs[0].file_name@
    } else {
        file_name_at(defs.skip(1), path)
    }
}

/// The line that reports a plugin given up.
pub open spec fn disabled_line(path: Seq<char>, why: Seq<char>) -> Seq<char> {
    "beckon: plugin "@ + path + (" disabled for this session: "@ + why)
}

/// The line that reports a plugin given up.
fn disabled_report(path: &str, why: &str) -> (r: String)
    ensures
        r@ == disabled_line(path@, why@),
{
    text::join3("beckon: plugin ", path, &text::join(" disabled for this session: ", why))
}

/// The keyword and name of the first running plugin at a path.
pub open spec fn first_live(live: Seq<Live>, path: Seq<char>) -> Option<(String, String)>
    decreases live.len(),
{
    if live.len() == 0 {
        None
    } else if live[0].path@ == path {
        Some((live[0].keyword, live[0].name))
    } else {
        first_live(live.skip(1), path)
    }
}

/// The trigger table: keyword and name of each running plugin, in discovery
/// order.
pub open spec fn keyword_pairs(defs: Seq<PluginDef>, live: Seq<Live>) -> Seq<(String, String)>
    decreases defs.len(),
{
    if defs.len() == 0 {
        Seq::empty()
    } else {
        let before = keyword_pairs(defs.drop_last(), live);
        match first_live(live, defs.last().path@) {
            Some(p) => before.push(p),
            None => before,
        }
    }
}

/// How the search for the plugin of a keyword goes from position `from`: the
/// first plugin that has it ends the search, one that is given up or has
/// another is passed over, and one that is not running has to be started.
pub open spec fn keyword_search(
    host: HostState,
    keyword: Seq<char>,
    from: int,
) -> (Option<Seq<char>>, Option<int>)
    decreases host.defs@.len() - from,
{
    if from < 0 || from >= host.defs@.len() {
        (None, None)
    } else {
        let path = host.defs@[from].path@;
        if host.is_disabled(path) {
            keyword_search(host, keyword, from + 1)
        } else {
            match first_live(host.live@, path) {
                None => (None, Some(from)),
                Some((k, _)) => if k@ == keyword {
                    (Some(path), None)
                } else {
                    keyword_search(host, keyword, from + 1)
                },
            }
        }
    }
}

impl HostState {
    /// The keyword and name of the running plugin at a path.
    fn manifest_of(&self, path: &str) -> (r: Option<(String, String)>)
        ensures
            r == first_live(self.live@, path@),
    {
        let mut i: usize = 0;
        assert(self.live@.skip(0) =~= self.live@);
        while i < self.live.len()
            invariant
                i <= self.live@.len(),
                first_live(self.live@, path@) == first_live(self.live@.skip(i as int), path@),
            decreases self.live@.len() - i,
        {
            if text::same(&self.live[i].path, path) {
                return Some((self.live[i].keyword.clone(), self.live[i].name.clone()));
            }
            assert(self.live@.skip(i as int).skip(1) =~= self.live@.skip(i + 1));
            i = i + 1;
        }
        None
    }

    /// The first plugin from position `from` on that has to be started before
    /// all plugins that are not given up are running.
    pub fn next_to_start(&self, from: usize) -> (r: Option<usize>)
        ensures
            ({
                let waits = |k: int|
                    !self.is_disabled(self.defs@[k].path@) && !self.is_live(self.defs@[k].path@);
                match r {
                    Some(i) => from <= i < self.defs@.len() && waits(i as int) && forall|k: int|
                        from <= k < i ==> !#[trigger] waits(k),
                    None => forall|k: int| from <= k < self.defs@.len() ==> !#[trigger] waits(k),
                }
            }),
    {
        let ghost waits = |k: int|
            !self.is_disabled(self.defs@[k].path@) && !self.is_live(self.defs@[k].path@);
        let mut i: usize = from;
        while i < self.defs.len()
            invariant
                from <= i,
                waits == (|k: int|
                    !self.is_disabled(self.defs@[k].path@) && !self.is_live(
                        self.defs@[k].path@,
                    )),
                forall|k: int| from <= k < i ==> !#[trigger] waits(k),
            decreases self.defs@.len() - i,
        {
            let path = &self.defs[i].path;
            if !self.disabled(path) && self.find_live(path).is_none() {
                assert(waits(i as int));
                return Some(i);
            }
            i = i + 1;
        }
        None
    }

    /// The trigger table: keyword and name of each running plugin, in
    /// discovery order.
    pub fn keywords(&self) -> (r: Vec<(String, String)>)
        ensures
            r@ == keyword_pairs(self.defs@, self.live@),
    {
        let mut out: Vec<(String, String)> = Vec::new();
        let mut i: usize = 0;
        assert(self.defs@.take(0) =~= Seq::<PluginDef>::empty());
        while i < self.defs.len()
            invariant
                i <= self.defs@.len(),
                out@ == keyword_pairs(self.defs@.take(i as int), self.live@),
            decreases self.defs@.len() - i,
        {
            proof {
                assert(self.defs@.take(i + 1).drop_last() =~= self.defs@.take(i as int));
            }
            if let Some(p) = self.manifest_of(&self.defs[i].path) {
                out.push(p);
            }
            i = i + 1;
        }
        assert(self.defs@.take(i as int) =~= self.defs@);
        out
    }

    /// Searches for the plugin of a keyword from position `from` on. The first
    /// match in discovery order wins.
    pub fn path_for_keyword(&self, keyword: &str, from: usize) -> (r: KeywordSearch)
        ensures
            match r {
                KeywordSearch::Found(p) => keyword_search(*self, keyword@, from as int) == (
                    Some(p@),
                    None::<int>,
                ),
                KeywordSearch::Spawn(i) => keyword_search(*self, keyword@, from as int) == (
                    None::<Seq<char>>,
                    Some(i as int),
                ),
                KeywordSearch::Missing => keyword_search(*self, keyword@, from as int) == (
                    None::<Seq<char>>,
                    None::<int>,
                ),
            },
    {
        let mut i: usize = from;
        while i < self.defs.len()
            invariant
                keyword_search(*self, keyword@, from as int) == keyword_search(
                    *self,
                    keyword@,
                    i as int,
                ),
            decreases self.defs@.len() - i,
        {
            let path = &self.defs[i].path;
            if !self.disabled(path) {
                match self.manifest_of(path) {
                    None => {
                        return KeywordSearch::Spawn(i);
                    },
                    Some((k, _)) => {
                        if text::same(&k, keyword) {
                            return KeywordSearch::Found(text::copy(path));
                        }
                    },
                }
            }
            i = i + 1;
        }
        KeywordSearch::Missing
    }

    /// The running plugin that a row's id belongs to, by its path, and the
    /// plugin's own id of the row; or that no plugin owns the id.
    pub fn activate(&self, id: &str) -> (r: Result<(String, String), String>)
        ensures
            ({
                let names = self.names();
                match r {
                    Ok((path, item)) => exists|i: int|
                        {
                            &&& #[trigger] belongs_to(names, id@, i)
                            &&& path@ == self.live@[i].path@
                            &&& item@ == own_id(names[i], id@)
                        },
                    Err(e) => {
                        &&& forall|j: int|
                            0 <= j < names.len() ==> !owns(#[trigger] names[j], id@)
                        &&& e@ == "no plugin owns id "@ + text::quoted_text(id@)
                    },
                }
            }),
    {
        let ghost expected = self.names();
        let mut names: Vec<String> = Vec::new();
        let mut i: usize = 0;
        while i < self.live.len()
            invariant
                i <= self.live@.len(),
                names@.len() == i,
                forall|k: int| 0 <= k < i ==> #[trigger] names@[k]@ == self.live@[k].name@,
            decreases self.live@.len() - i,
        {
            names.push(text::copy(&self.live[i].name));
            i = i + 1;
        }
        assert(views(names@) =~= expected);
        match split_plugin_id(id, &names) {
            Some((k, item)) => {
                proof {
                    assert(belongs_to(expected, id@, k as int));
                    assert(expected[k as int] == names@[k as int]@);
                }
                Ok((text::copy(&self.live[k].path), item))
            },
            None => {
                proof {
                    assert forall|j: int| 0 <= j < expected.len() implies !owns(
                        #[trigger] expected[j],
                        id@,
                    ) by {
                        assert(expected[j] == names@[j]@);
                    }
                }
                Err(text::join("no plugin owns id ", &text::quoted(id)))
            },
        }
    }

    /// The name of the running plugin at a path.
    pub fn name_of(&self, path: &str) -> (r: Option<String>)
        ensures
            r == (match first_live(self.live@, path@) {
                Some((_, name)) => Some(name),
                None => None,
            }),
    {
        match self.manifest_of(path) {
            Some((_, name)) => Some(name),
            None => None,
        }
    }
}

/// A row as a plugin supplies it.
#[derive(Debug, Clone, PartialEq, Eq)]
pub struct PluginItem {
    pub id: String,
    pub title: String,
    pub subtitle: String,
}

/// The row that stands for a plugin's row.
pub open spec fn item_view(name: Seq<char>, item: PluginItem) -> ItemView {
    ItemView {
        id: item_id(name, item.id@),
        title: without_controls(item.title@),
        subtitle: without_controls(item.subtitle@),
        kind: ItemKind::Script,
    }
}

/// The rows that stand for a plugin's rows, in the plugin's order.
pub fn query(name: &str, items: &Vec<PluginItem>) -> (r: Vec<Item>)
    ensures
        r@.len() == items@.len(),
        forall|i: int| 0 <= i < r@.len() ==> #[trigger] r@[i]@ == item_view(name@, items@[i]),
{
    let mut out: Vec<Item> = Vec::new();
    let mut i: usize = 0;
    while i < items.len()
        invariant
            i <= items@.len(),
            out@.len() == i,
            forall|k: int| 0 <= k < i ==> #[trigger] out@[k]@ == item_view(name@, items@[k]),
        decreases items@.len() - i,
    {
        let it = &items[i];
        out.push(
            Item {
                id: make_item_id(name, &it.id),
                title: strip_controls(&it.title),
                subtitle: strip_controls(&it.subtitle),
                kind: ItemKind::Script,
            },
        );
        i = i + 1;
    }
    out
}

/// The line that reports a failed query.
pub fn query_failed(keyword: &str, why: &str) -> (r: String)
    ensures
        r@ == "beckon: plugin query for keyword "@ + text::quoted_text(keyword@) + (" failed: "@
            + why@),
{
    text::join3(
        "beckon: plugin query for keyword ",
        &text::quoted(keyword),
        &text::join(" failed: ", why),
    )
}

/// The line that reports a query result that does not read.
pub fn bad_result(name: &str, why: &str) -> (r: String)
    ensures
        r@ == "beckon: plugin "@ + name@ + (" returned a bad query result: "@ + why@),
{
    text::join3("beckon: plugin ", name, &text::join(" returned a bad query result: ", why))
}

/// The line that passes on what a plugin wrote to its error stream.
pub fn forwarded(name: &str, line: &str) -> (r: String)
    ensures
        r@ == "beckon plugin["@ + name@ + ("]: "@ + line@),
{
    text::join3("beckon plugin[", name, &text::join("]: ", line))
}

/// A plugin that is given up takes no further part in a keyword search.
pub proof fn law_given_up_plugins_are_never_asked(host: HostState, keyword: Seq<char>, from: int)
    ensures
        match keyword_search(host, keyword, from) {
            (Some(path), _) => !host.is_disabled(path),
            (None, Some(i)) => from <= i < host.defs@.len() && !host.is_disabled(
                host.defs@[i].path@,
            ),
            (None, None) => true,
        },
    decreases host.defs@.len() - from,
{
    if 0 <= from < host.defs@.len() {
        law_given_up_plugins_are_never_asked(host, keyword, from + 1);
    }
}

/// A call tries at most twice, however its tries fail: a plugin is started
/// afresh once, and only after a fatal failure.
pub proof fn law_a_call_tries_twice_at_most(fails: Seq<CallFail>)
    ensures
        1 <= tries(Attempt::First, fails) <= 2,
        tries(Attempt::First, fails) == 2 <==> fails.len() > 0 && fails[0].fatal,
{
    reveal_with_fuel(tries, 3);
}

/// A first fatal failure puts the plugin down and leads to one more try,
/// without giving it up; a second, after the fresh start, gives it up: it runs
/// no longer, and no try follows.
pub proof fn law_a_second_fatal_failure_gives_up(
    running: HostState,
    down: HostState,
    restarted: HostState,
    given_up: HostState,
    path: Seq<char>,
    first: CallFail,
    second: CallFail,
)
    requires
        first.fatal,
        second.fatal,
        running.fails_to(path, Attempt::First, first, down),
        restarted.fails_to(path, Attempt::Second, second, given_up),
    ensures
        next_attempt(Attempt::First, first) == Some(Attempt::Second),
        !down.is_live(path),
        down.is_disabled(path) == running.is_disabled(path),
        next_attempt(Attempt::Second, second) is None,
        !given_up.is_live(path),
        given_up.is_disabled(path),
{
    let x = views(given_up.blacklist@);
    assert(x.last() == path);
}

/// The row of a running plugin leads back, on activation, to a running plugin
/// of that name and to the plugin's own id of the row.
pub proof fn law_rows_of_running_plugins_lead_back(host: HostState, i: int, item: PluginItem)
    requires
        host.well_formed(),
        0 <= i < host.live@.len(),
        without_controls(item.id@).len() > 0,
    ensures
        ({
            let id = item_view(host.live@[i].name@, item).id;
            &&& exists|k: int| #[trigger] belongs_to(host.names(), id, k)
            &&& forall|k: int| #[trigger]
                belongs_to(host.names(), id, k) ==> {
                    &&& host.live@[k].name@ == host.live@[i].name@
                    &&& own_id(host.names()[k], id) == without_controls(item.id@)
                }
        }),
{
    let names = host.names();
    assert forall|j: int| 0 <= j < names.len() implies !(#[trigger] names[j]).contains('.') by {
        assert(names[j] == host.live@[j].name@);
    }
    law_item_ids_lead_back(names, i, item.id@);
    let id = item_view(host.live@[i].name@, item).id;
    assert(names[i] == host.live@[i].name@);
    assert forall|k: int| #[trigger] belongs_to(names, id, k) implies host.live@[k].name@
        == host.live@[i].name@ && own_id(names[k], id) == without_controls(item.id@) by {
        assert(names[k] == host.live@[k].name@);
    }
}

/// Control characters are taken out of a text and every other character is kept
/// in its place.
pub proof fn law_only_controls_are_stripped(a: Seq<char>, b: Seq<char>, c: char)
    ensures
        without_controls(a + b) == without_controls(a) + without_controls(b),
        without_controls(seq![c]) == (if (c as u32) < 32 || 127 <= (c as u32) < 160 {
            Seq::empty()
        } else {
            seq![c]
        }),
{
    let p = |c: char| !text::is_control(c);
    Seq::filter_distributes_over_add(a, b, p);
    reveal_with_fuel(Seq::filter, 2);
    assert(seq![c].drop_last() =~= Seq::<char>::empty());
    assert(Seq::<char>::empty().push(c) =~= seq![c]);
}

/// A name in an id has a hyphen for each dot and each white space and keeps all
/// other characters but controls. The manifest's name goes before the file
/// name, and a fixed word stands in where neither leaves anything.
pub proof fn law_names_keep_their_letters(a: Seq<char>, b: Seq<char>, c: char)
    ensures
        cleaned(a + b) == cleaned(a) + cleaned(b),
        (c as u32) < 32 || 127 <= (c as u32) < 160 ==> cleaned(seq![c]).len() == 0,
        c == '.' || c == ' ' ==> cleaned(seq![c]) == seq!['-'],
        (c as u32) > 32 && (c as u32) < 127 && c != '.' ==> cleaned(seq![c]) == seq![c],
        (c as u32) > 0x3000 ==> cleaned(seq![c]) == seq![c],
        cleaned(a).len() > 0 ==> sanitized(a, b) == cleaned(a),
        cleaned(a).len() == 0 && cleaned(b).len() > 0 ==> sanitized(a, b) == cleaned(b),
        cleaned(a).len() == 0 && cleaned(b).len() == 0 ==> sanitized(a, b) == seq![
            'p',
            'l',
            'u',
            'g',
            'i',
            'n',
        ],
{
    law_only_controls_are_stripped(a, b, c);
    reveal_strlit("plugin");
    assert("plugin"@ =~= seq!['p', 'l', 'u', 'g', 'i', 'n']);
    assert(cleaned(a + b) =~= cleaned(a) + cleaned(b));
    assert(seq![c].map_values(|c: char| id_safe(c)) =~= seq![id_safe(c)]);
}

/// An id belongs to a plugin's rows exactly where it is the fixed word, the name
/// and something more, with dots between them; what is more is the plugin's own
/// id of the row.
pub proof fn law_ids_hold_the_name_and_the_own_id(name: Seq<char>, id: Seq<char>, rest: Seq<char>)
    ensures
        owns(name, id) ==> own_id(name, id).len() > 0 && id == "plugin."@ + name + "."@ + own_id(
            name,
            id,
        ),
        rest.len() > 0 ==> owns(name, "plugin."@ + name + "."@ + rest) && own_id(
            name,
            "plugin."@ + name + "."@ + rest,
        ) == rest,
        !owns(name, "plugin."@ + name + "."@),
        item_id(name, rest) == "plugin."@ + name + "."@ + without_controls(rest),
{
    let head = "plugin."@ + name + "."@;
    if owns(name, id) {
        assert(id =~= head + own_id(name, id));
    }
    let made = head + rest;
    assert(made.subrange(0, head.len() as int) =~= head);
    assert(made.skip(head.len() as int) =~= rest);
}

/// The row that stands for a plugin's row shows the plugin's own title and
/// subtitle, without control characters.
pub proof fn law_plugin_rows_show_what_was_answered(name: Seq<char>, item: PluginItem)
    ensures
        item_view(name, item).title == without_controls(item.title@),
        item_view(name, item).subtitle == without_controls(item.subtitle@),
        item_view(name, item).id == "plugin."@ + name + "."@ + without_controls(item.id@),
{
}

/// The plugins among entries are all regular files that someone may execute, in
/// the order in which they were found, and nothing else.
pub proof fn law_plugins_are_executable_files(a: Seq<Found>, b: Seq<Found>, f: Found)
    ensures
        plugins_among(a + b) == plugins_among(a) + plugins_among(b),
        plugins_among(seq![f]) == (if f.is_file && (f.mode & 0o100 != 0 || f.mode & 0o010 != 0
            || f.mode & 0o001 != 0) {
            seq![f.def@]
        } else {
            Seq::empty()
        }),
    decreases b.len(),
{
    reveal_with_fuel(plugins_among, 2);
    let m = f.mode;
    assert(m & 0o111 != 0 <==> m & 0o100 != 0 || m & 0o010 != 0 || m & 0o001 != 0) by (bit_vector);
    assert(seq![f].drop_last() =~= Seq::<Found>::empty());
    assert(Seq::<DefView>::empty().push(f.def@) =~= seq![f.def@]);
    if b.len() == 0 {
        assert(a + b =~= a);
    } else {
        assert((a + b).drop_last() =~= a + b.drop_last());
        law_plugins_are_executable_files(a, b.drop_last(), f);
        assert(plugins_among(a + b) =~= plugins_among(a) + plugins_among(b));
    }
}

/// Discovery keeps every plugin, each once, and no file name stands before one
/// that comes earlier in the dictionary.
pub proof fn law_discovery_sorts_by_file_name(defs: Seq<DefView>)
    ensures
        in_order(defs).to_multiset() == defs.to_multiset(),
        in_order(defs).len() == defs.len(),
        forall|i: int, j: int|
            0 <= i < j < in_order(defs).len() ==> !text::lex_before(
                (#[trigger] in_order(defs)[j]).file_name,
                (#[trigger] in_order(defs)[i]).file_name,
            ),
{
    let p = sorted_positions::<PluginDef>(defs);
    order::lemma_sorted_positions::<PluginDef>(defs);
    order::lemma_order_is_permutation::<PluginDef, DefView>(defs, p, defs);
    assert forall|i: int, j: int| 0 <= i < j < in_order(defs).len() implies !text::lex_before(
        (#[trigger] in_order(defs)[j]).file_name,
        (#[trigger] in_order(defs)[i]).file_name,
    ) by {
        law_discovery_order(defs, i, j);
    }
}

/// A handshake succeeds exactly where a response to the first request comes with
/// a manifest that reads: the name is made safe for ids and the keyword taken as
/// given. Otherwise the reason is told.
pub proof fn law_handshakes_give_the_manifest(outcome: Handshake, file_name: Seq<char>)
    ensures
        ({
            let given = accepted(outcome, file_name);
            match outcome {
                Handshake::NotStarted(e) => given is Err && given->Err_0 == "cannot spawn: "@ + e@,
                Handshake::WriteFailed(e) => given is Err && given->Err_0 == "stdin write failed: "@
                    + e@,
                Handshake::NoLine(e) => given is Err && given->Err_0 == e@,
                Handshake::BadResponse(e) => given is Err && given->Err_0
                    == "bad manifest response: "@ + e@,
                Handshake::Response { id, manifest } => {
                    &&& given is Ok <==> id == 1 && manifest is Ok
                    &&& id != 1 ==> given->Err_0 == "manifest response id "@ + text::signed_decimal(
                        id as int,
                    ) + " does not match request id 1"@
                    &&& id == 1 ==> match manifest {
                        Ok(m) => given->Ok_0 == (sanitized(m.name@, file_name), m.keyword@),
                        Err(e) => given->Err_0 == "bad manifest: "@ + e@,
                    }
                },
            }
        }),
{
}

/// All line feeds and carriage returns come off the end of a line and nothing
/// else; the length of a line counts all its bytes but one line feed at its end.
pub proof fn law_line_ends_come_off(s: Seq<char>, buf: Seq<u8>)
    ensures
        ({
            let n = without_line_end(s).len() as int;
            &&& n <= s.len() && without_line_end(s) == s.take(n)
            &&& forall|i: int| n <= i < s.len() ==> #[trigger] s[i] == '\n' || s[i] == '\r'
            &&& n > 0 ==> s[n - 1] != '\n' && s[n - 1] != '\r'
        }),
        content_length(buf.push(10)) == buf.len(),
        buf.len() == 0 || buf.last() != 10 ==> content_length(buf) == buf.len(),
    decreases s.len(),
{
    if s.len() > 0 && (s.last() == '\n' || s.last() == '\r') {
        let t = s.drop_last();
        law_line_ends_come_off(t, buf);
        let n = without_line_end(s).len() as int;
        assert(t.take(n) =~= s.take(n));
        assert forall|i: int| n <= i < s.len() implies #[trigger] s[i] == '\n' || s[i] == '\r' by {
            if i < t.len() {
                assert(s[i] == t[i]);
            }
        }
        if n > 0 {
            assert(t[n - 1] == s[n - 1]);
        }
    } else {
        assert(s.take(s.len() as int) =~= s);
    }
}

/// The keyword and name at a path are those of the first plugin that runs there,
/// and there are none exactly where none runs.
pub proof fn law_the_first_at_a_path_counts(live: Seq<Live>, path: Seq<char>)
    ensures
        match first_live(live, path) {
            Some(found) => exists|k: int|
                {
                    &&& 0 <= k < live.len()
                    &&& (#[trigger] live[k]).path@ == path
                    &&& found == (live[k].keyword, live[k].name)
                    &&& forall|j: int| 0 <= j < k ==> (#[trigger] live[j]).path@ != path
                },
            None => forall|j: int| 0 <= j < live.len() ==> (#[trigger] live[j]).path@ != path,
        },
    decreases live.len(),
{
    if live.len() > 0 && live[0].path@ != path {
        let rest = live.skip(1);
        law_the_first_at_a_path_counts(rest, path);
        if let Some(found) = first_live(rest, path) {
            let k = choose|k: int|
                {
                    &&& 0 <= k < rest.len()
                    &&& (#[trigger] rest[k]).path@ == path
                    &&& found == (rest[k].keyword, rest[k].name)
                    &&& forall|j: int| 0 <= j < k ==> (#[trigger] rest[j]).path@ != path
                };
            assert(live[k + 1] == rest[k]);
            assert forall|j: int| 0 <= j < k + 1 implies (#[trigger] live[j]).path@ != path by {
                if j > 0 {
                    assert(rest[j - 1] == live[j]);
                }
            }
        } else {
            assert forall|j: int| 0 <= j < live.len() implies (#[trigger] live[j]).path@ != path by {
                if j > 0 {
                    assert(rest[j - 1] == live[j]);
                }
            }
        }
    } else if live.len() > 0 {
        assert(live[0].path@ == path);
    }
}

/// The trigger table has one entry for each discovered plugin that runs, in the
/// order of discovery.
pub proof fn law_the_trigger_table_follows_discovery(
    a: Seq<PluginDef>,
    b: Seq<PluginDef>,
    d: PluginDef,
    live: Seq<Live>,
)
    ensures
        keyword_pairs(a + b, live) == keyword_pairs(a, live) + keyword_pairs(b, live),
        keyword_pairs(seq![d], live) == (match first_live(live, d.path@) {
            Some(pair) => seq![pair],
            None => Seq::empty(),
        }),
    decreases b.len(),
{
    reveal_with_fuel(keyword_pairs, 2);
    assert(seq![d].drop_last() =~= Seq::<PluginDef>::empty());
    if let Some(pair) = first_live(live, d.path@) {
        assert(Seq::<(String, String)>::empty().push(pair) =~= seq![pair]);
    }
    if b.len() == 0 {
        assert(a + b =~= a);
    } else {
        assert((a + b).drop_last() =~= a + b.drop_last());
        law_the_trigger_table_follows_discovery(a, b.drop_last(), d, live);
        assert(keyword_pairs(a + b, live) =~= keyword_pairs(a, live) + keyword_pairs(b, live));
    }
}

/// Whether a plugin is passed over in the search for a keyword: it is given up,
/// or it runs and has another keyword.
pub open spec fn passed_over(host: HostState, keyword: Seq<char>, i: int) -> bool {
    let path = host.defs@[i].path@;
    host.is_disabled(path) || (first_live(host.live@, path) matches Some((k, _)) && k@ != keyword)
}

/// A keyword's plugin is the first in discovery order that is not passed over:
/// it has the keyword, or has to be started to be asked. Where all are passed
/// over there is none.
pub proof fn law_keywords_find_the_first_plugin(host: HostState, keyword: Seq<char>, from: int)
    requires
        0 <= from <= host.defs@.len(),
    ensures
        match keyword_search(host, keyword, from) {
            (Some(path), None) => exists|i: int|
                {
                    &&& from <= i < host.defs@.len()
                    &&& (#[trigger] host.defs@[i]).path@ == path
                    &&& !host.is_disabled(path)
                    &&& first_live(host.live@, path) matches Some((k, _)) && k@ == keyword
                    &&& forall|j: int| from <= j < i ==> #[trigger] passed_over(host, keyword, j)
                },
            (None, Some(i)) => {
                &&& from <= i < host.defs@.len()
                &&& !host.is_disabled(host.defs@[i].path@)
                &&& first_live(host.live@, host.defs@[i].path@) is None
                &&& forall|j: int| from <= j < i ==> #[trigger] passed_over(host, keyword, j)
            },
            (None, None) => forall|j: int|
                from <= j < host.defs@.len() ==> #[trigger] passed_over(host, keyword, j),
            (Some(_), Some(_)) => false,
        },
    decreases host.defs@.len() - from,
{
    if from < host.defs@.len() {
        law_keywords_find_the_first_plugin(host, keyword, from + 1);
        let path = host.defs@[from].path@;
        if passed_over(host, keyword, from) {
            if let (Some(found), None) = keyword_search(host, keyword, from) {
                let i = choose|i: int|
                    {
                        &&& from + 1 <= i < host.defs@.len()
                        &&& (#[trigger] host.defs@[i]).path@ == found
                        &&& !host.is_disabled(found)
                        &&& first_live(host.live@, found) matches Some((k, _)) && k@ == keyword
                        &&& forall|j: int|
                            from + 1 <= j < i ==> #[trigger] passed_over(host, keyword, j)
                    };
                assert(host.defs@[i].path@ == found);
                assert forall|j: int| from <= j < i implies #[trigger] passed_over(
                    host,
                    keyword,
                    j,
                ) by {}
            }
        } else {
            assert(host.defs@[from].path@ == path);
        }
    }
}

/// A plugin is called by the file name of the first definition at its path, or
/// by a fixed word where there is none.
pub proof fn law_names_come_from_the_first_definition(
    a: Seq<PluginDef>,
    d: PluginDef,
    b: Seq<PluginDef>,
    path: Seq<char>,
)
    requires
        forall|i: int| 0 <= i < a.len() ==> (#[trigger] a[i]).path@ != path,
    ensures
        d.path@ == path ==> file_name_at(a.push(d) + b, path) == d.file_name@,
        file_name_at(a, path) == "plugin"@,
    decreases a.len(),
{
    let all = a.push(d) + b;
    if a.len() == 0 {
        assert(all[0] == d);
    } else {
        let t = a.skip(1);
        assert forall|i: int| 0 <= i < t.len() implies (#[trigger] t[i]).path@ != path by {
            assert(t[i] == a[i + 1]);
        }
        law_names_come_from_the_first_definition(t, d, b, path);
        assert(all[0] == a[0]);
        assert(all.skip(1) =~= t.push(d) + b);
    }
}

/// A plugin that is given up is reported with its path and the reason.
pub proof fn law_giving_up_is_reported(path: Seq<char>, why: Seq<char>)
    ensures
        disabled_line(path, why) == "beckon: plugin "@ + path + " disabled for this session: "@
            + why,
{
    assert(disabled_line(path, why) =~= "beckon: plugin "@ + path + " disabled for this session: "@
        + why);
}

/// A failure that is not fatal changes nothing of the host; a fatal one takes
/// the plugin at the path out of those that run and leaves all others in their
/// order; and only one at the second try adds the path to those given up.
pub proof fn law_failures_touch_only_their_plugin(
    host: HostState,
    next: HostState,
    path: Seq<char>,
    attempt: Attempt,
    fail: CallFail,
)
    requires
        host.fails_to(path, attempt, fail, next),
    ensures
        !fail.fatal ==> next == host,
        fail.fatal && host.is_live(path) ==> exists|i: int|
            0 <= i < host.live@.len() && (#[trigger] host.live@[i]).path@ == path && next.live@
                == host.live@.take(i) + host.live@.skip(i + 1),
        fail.fatal && !host.is_live(path) ==> next.live@ == host.live@,
        next.blacklist@.len() == host.blacklist@.len() + (if fail.fatal && attempt is Second {
            1int
        } else {
            0
        }),
        next.defs == host.defs,
{
    assert(views(next.blacklist@).len() == next.blacklist@.len());
    assert(views(host.blacklist@).len() == host.blacklist@.len());
    if fail.fatal && host.is_live(path) {
        let i = choose|i: int| #[trigger] host.live_at(i, path) && next.live@ == host.live@.remove(
            i,
        );
        assert(host.live@[i].path@ == path);
        assert(next.live@ =~= host.live@.take(i) + host.live@.skip(i + 1));
    }
}

/// A plugin runs exactly where one of those that run has its path, and is given
/// up exactly where its path is listed as such.
pub proof fn law_plugins_are_known_by_their_path(host: HostState, path: Seq<char>)
    ensures
        host.is_live(path) <==> exists|i: int|
            0 <= i < host.live@.len() && (#[trigger] host.live@[i]).path@ == path,
        host.is_disabled(path) <==> exists|i: int|
            0 <= i < host.blacklist@.len() && (#[trigger] host.blacklist@[i])@ == path,
        host.names().len() == host.live@.len(),
        forall|i: int| 0 <= i < host.live@.len() ==> #[trigger] host.names()[i] == host.live@[i].name@,
{
    if exists|i: int| 0 <= i < host.live@.len() && (#[trigger] host.live@[i]).path@ == path {
        let i = choose|i: int| 0 <= i < host.live@.len() && (#[trigger] host.live@[i]).path@ == path;
        assert(host.live_at(i, path));
    }
    if host.is_live(path) {
        let i = choose|i: int| host.live_at(i, path);
        assert(host.live@[i].path@ == path);
    }
    let listed = views(host.blacklist@);
    if host.is_disabled(path) {
        let i = choose|i: int| 0 <= i < listed.len() && listed[i] == path;
        assert(host.blacklist@[i]@ == path);
    }
    if exists|i: int| 0 <= i < host.blacklist@.len() && (#[trigger] host.blacklist@[i])@ == path {
        let i = choose|i: int|
            0 <= i < host.blacklist@.len() && (#[trigger] host.blacklist@[i])@ == path;
        assert(listed[i] == path);
    }
}

/// A host that is sound runs no plugin twice and none that is given up, and no
/// name of a running one holds a dot.
pub proof fn law_sound_hosts_run_each_plugin_once(host: HostState, i: int, j: int)
    requires
        host.well_formed(),
        0 <= i < host.live@.len(),
        0 <= j < host.live@.len(),
    ensures
        i != j ==> host.live@[i].path@ != host.live@[j].path@,
        !host.is_disabled(host.live@[i].path@),
        !host.live@[i].name@.contains('.'),
{
    if host.live@[i].path@ == host.live@[j].path@ {
        assert(host.live_at(i, host.live@[i].path@));
        assert(host.live_at(j, host.live@[i].path@));
    }
}

} // verus!
