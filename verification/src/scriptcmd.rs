//! Script commands: an annotated executable in the scripts directory becomes
//! a launcher command.
//!
//! The first 30 lines of a script are searched for annotation lines:
//!
//! ```text
//! line   = ws* marker ws* "@beckon." key ws value
//! marker = "#"+ | "//" "/"* | "--" "-"*
//! key    = "title" | "subtitle" | "mode" | "keyword"
//! value  = rest of the line, trimmed; an empty value means absent
//! ```
//!
//! The first valid occurrence of each key wins; later ones, unknown keys and
//! unknown modes do not count.

use crate::order::{self, ints, sorted_positions, views, Ranked};
use crate::paths;
use crate::router::{Item, ItemKind, ItemView};
use crate::table::Table;
use crate::text;
use vstd::prelude::*;

verus! {

/// How many leading lines of a script are searched for annotations.
pub const ANNOTATION_LINES: usize = 30;

/// How many leading bytes of a script are read for the annotation scan.
pub const HEADER_BYTES: u64 = 8192;

/// How long a script may run before it is killed, in milliseconds.
pub const DEFAULT_TIMEOUT_MS: u64 = 10000;

/// How long to wait between two looks at a running script, in milliseconds.
pub const POLL_MS: u64 = 20;

/// What happens to a script's output.
#[derive(Debug, Clone, Copy, PartialEq, Eq, Structural)]
pub enum Mode {
    /// Run quietly; success gives the empty string.
    Silent,
    /// Success gives the trimmed standard output.
    Output,
}

impl Mode {
    /// The annotation spelling.
    pub open spec fn spelling(self) -> Seq<char> {
        match self {
            Mode::Silent => "silent"@,
            Mode::Output => "output"@,
        }
    }

    /// The annotation spelling, used in subtitles.
    pub fn label(self) -> (r: &'static str)
        ensures
            r@ == self.spelling(),
    {
        match self {
            Mode::Silent => "silent",
            Mode::Output => "output",
        }
    }
}

/// One discovered script with its annotations.
#[derive(Debug, Clone, PartialEq, Eq)]
pub struct Script {
    /// File name inside the scripts directory.
    pub file_name: String,
    /// Absolute path to the executable.
    pub path: String,
    /// Annotated title, or the file name without its extension.
    pub title: String,
    /// Annotated subtitle.
    pub subtitle: Option<String>,
    /// Annotated mode, or silent.
    pub mode: Mode,
    /// Annotated keyword, an implicit alias for the script.
    pub keyword: Option<String>,
}

/// What a [`Script`] holds.
#[verifier::ext_equal]
pub struct ScriptView {
    pub file_name: Seq<char>,
    pub path: Seq<char>,
    pub title: Seq<char>,
    pub subtitle: Option<Seq<char>>,
    pub mode: Mode,
    pub keyword: Option<Seq<char>>,
}

impl View for Script {
    type V = ScriptView;

    open spec fn view(&self) -> ScriptView {
        ScriptView {
            file_name: self.file_name@,
            path: self.path@,
            title: self.title@,
            subtitle: text::opt_view(self.subtitle),
            mode: self.mode,
            keyword: text::opt_view(self.keyword),
        }
    }
}

impl Script {
    /// A copy of the script.
    pub fn copied(&self) -> (r: Script)
        ensures
            r == *self,
    {
        Script {
            file_name: self.file_name.clone(),
            path: self.path.clone(),
            title: self.title.clone(),
            subtitle: text::opt_copy(&self.subtitle),
            mode: self.mode,
            keyword: text::opt_copy(&self.keyword),
        }
    }
}

/// What an annotation header says.
#[derive(Debug, Clone, PartialEq, Eq)]
pub struct Ann {
    pub title: Option<String>,
    pub subtitle: Option<String>,
    pub mode: Option<Mode>,
    pub keyword: Option<String>,
}

impl Default for Ann {
    /// Nothing annotated.
    fn default() -> (r: Self)
        ensures
            r.title is None && r.subtitle is None && r.mode is None && r.keyword is None,
    {
        Ann { title: None, subtitle: None, mode: None, keyword: None }
    }
}

/// A line without its comment marker, none where it is no comment.
pub open spec fn uncommented(line: Seq<char>) -> Option<Seq<char>> {
    let t = text::trimmed_start(line);
    if "//"@.is_prefix_of(t) {
        Some(text::without_leading(t.skip("//"@.len() as int), '/'))
    } else if "--"@.is_prefix_of(t) {
        Some(text::without_leading(t.skip("--"@.len() as int), '-'))
    } else if "#"@.is_prefix_of(t) {
        Some(text::without_leading(t.skip("#"@.len() as int), '#'))
    } else {
        None
    }
}

/// Strips one comment marker (`#`, `//` or `--`, with repeats tolerated) from
/// the start of a line. None means that the line is no comment.
pub fn strip_comment_marker(line: &str) -> (r: Option<String>)
    ensures
        text::opt_view(r) == uncommented(line@),
{
    let t = text::trim_start(line);
    match text::strip_prefix(&t, "//") {
        Some(rest) => Some(text::strip_leading(&rest, '/')),
        None => match text::strip_prefix(&t, "--") {
            Some(rest) => Some(text::strip_leading(&rest, '-')),
            None => match text::strip_prefix(&t, "#") {
                Some(rest) => Some(text::strip_leading(&rest, '#')),
                None => None,
            },
        },
    }
}

/// The key and the value of an annotation line, none where the line is no
/// annotation or its value is empty.
pub open spec fn annotation(line: Seq<char>) -> Option<(Seq<char>, Seq<char>)> {
    match uncommented(line) {
        None => None,
        Some(comment) => {
            let c = text::trimmed_start(comment);
            if !"@beckon."@.is_prefix_of(c) {
                None
            } else {
                match text::split_at_space(c.skip("@beckon."@.len() as int)) {
                    None => None,
                    Some((key, rest)) => if text::trimmed(rest).len() == 0 {
                        None
                    } else {
                        Some((key, text::trimmed(rest)))
                    },
                }
            }
        },
    }
}

/// Reads one line as an annotation.
fn read_annotation(line: &str) -> (r: Option<(String, String)>)
    ensures
        match r {
            Some((k, v)) => annotation(line@) == Some((k@, v@)),
            None => annotation(line@) is None,
        },
{
    let comment = match strip_comment_marker(line) {
        Some(c) => c,
        None => {
            return None;
        },
    };
    let rest = match text::strip_prefix(&text::trim_start(&comment), "@beckon.") {
        Some(r) => r,
        None => {
            return None;
        },
    };
    match text::split_space(&rest) {
        Some((key, tail)) => {
            let value = text::trim(&tail);
            if value.as_str().is_empty() {
                None
            } else {
                Some((key, value))
            }
        },
        None => None,
    }
}

/// The value of the first annotation with a key.
pub open spec fn first_value(lines: Seq<Seq<char>>, key: Seq<char>) -> Option<Seq<char>>
    decreases lines.len(),
{
    if lines.len() == 0 {
        None
    } else {
        match first_value(lines.drop_last(), key) {
            Some(v) => Some(v),
            None => match annotation(lines.last()) {
                Some((k, v)) if k == key => Some(v),
                _ => None,
            },
        }
    }
}

/// The mode with a given spelling.
pub open spec fn mode_named(value: Seq<char>) -> Option<Mode> {
    if value == "silent"@ {
        Some(Mode::Silent)
    } else if value == "output"@ {
        Some(Mode::Output)
    } else {
        None
    }
}

/// The mode of the first mode annotation that names one.
pub open spec fn first_mode(lines: Seq<Seq<char>>) -> Option<Mode>
    decreases lines.len(),
{
    if lines.len() == 0 {
        None
    } else {
        match first_mode(lines.drop_last()) {
            Some(m) => Some(m),
            None => match annotation(lines.last()) {
                Some((k, v)) if k == "mode"@ => mode_named(v),
                _ => None,
            },
        }
    }
}

/// The lines of a header that are searched for annotations.
pub open spec fn header_lines(header: Seq<char>) -> Seq<Seq<char>> {
    let all = text::lines(header);
    if all.len() <= ANNOTATION_LINES {
        all
    } else {
        all.take(ANNOTATION_LINES as int)
    }
}

/// Whether an annotation record holds what the given lines say.
pub open spec fn says(ann: Ann, lines: Seq<Seq<char>>) -> bool {
    &&& text::opt_view(ann.title) == first_value(lines, "title"@)
    &&& text::opt_view(ann.subtitle) == first_value(lines, "subtitle"@)
    &&& ann.mode == first_mode(lines)
    &&& text::opt_view(ann.keyword) == first_value(lines, "keyword"@)
}

/// Reads the annotations out of a script header.
pub fn parse_annotations(header: &str) -> (r: Ann)
    ensures
        says(r, header_lines(header@)),
{
    let all = text::lines_of(header);
    let ghost ls = views(all@);
    let mut ann = Ann::default();
    let mut i: usize = 0;
    while i < all.len() && i < ANNOTATION_LINES
        invariant
            i <= all@.len(),
            i <= ANNOTATION_LINES,
            ls == views(all@),
            says(ann, ls.take(i as int)),
        decreases all@.len() - i,
    {
        let ghost before = ls.take(i as int);
        let ghost after = ls.take(i + 1);
        let found = read_annotation(&all[i]);
        proof {
            assert(after.drop_last() =~= before);
            assert(after.last() == all@[i as int]@);
            reveal_strlit("title");
            reveal_strlit("subtitle");
            reveal_strlit("keyword");
            reveal_strlit("mode");
            assert("title"@.len() == 5 && "subtitle"@.len() == 8 && "keyword"@.len() == 7
                && "mode"@.len() == 4);
        }
        if let Some((key, value)) = found {
            if text::same(&key, "title") {
                if ann.title.is_none() {
                    ann.title = Some(value);
                }
            } else if text::same(&key, "subtitle") {
                if ann.subtitle.is_none() {
                    ann.subtitle = Some(value);
                }
            } else if text::same(&key, "keyword") {
                if ann.keyword.is_none() {
                    ann.keyword = Some(value);
                }
            } else if text::same(&key, "mode") {
                if ann.mode.is_none() {
                    ann.mode =
                    if text::same(&value, "silent") {
                        Some(Mode::Silent)
                    } else if text::same(&value, "output") {
                        Some(Mode::Output)
                    } else {
                        None
                    };
                }
            }
        }
        assert(says(ann, after));
        i = i + 1;
    }
    assert(ls.take(i as int) =~= header_lines(header@));
    ann
}

/// The first bytes of a script, as many as are read for annotations.
pub open spec fn header_bytes(head: Seq<u8>) -> Seq<u8> {
    head.subrange(
        0,
        if head.len() <= HEADER_BYTES {
            head.len() as int
        } else {
            HEADER_BYTES as int
        },
    )
}

/// Reads the annotations out of the first bytes of a script.
pub fn read_annotations(head: &[u8]) -> (r: Ann)
    ensures
        says(r, header_lines(text::lossy_text(header_bytes(head@)))),
{
    let n: usize = if head.len() <= HEADER_BYTES as usize {
        head.len()
    } else {
        HEADER_BYTES as usize
    };
    parse_annotations(&text::from_utf8_lossy(vstd::slice::slice_subrange(head, 0, n)))
}

/// A directory entry as the scan finds it.
#[derive(Debug)]
pub struct Found {
    /// Its file name, none where that is not text.
    pub name: Option<String>,
    /// Its path.
    pub path: String,
    /// Whether it is a regular file, symlinks followed.
    pub is_file: bool,
    /// Its permission bits.
    pub mode: u32,
    /// The first bytes of the file; they count for executables only.
    pub head: Vec<u8>,
}

/// What a [`Found`] holds.
#[verifier::ext_equal]
pub struct FoundView {
    pub name: Option<Seq<char>>,
    pub path: Seq<char>,
    pub is_file: bool,
    pub mode: u32,
    pub head: Seq<u8>,
}

impl View for Found {
    type V = FoundView;

    open spec fn view(&self) -> FoundView {
        FoundView {
            name: text::opt_view(self.name),
            path: self.path@,
            is_file: self.is_file,
            mode: self.mode,
            head: self.head@,
        }
    }
}

/// What the scan makes of an entry.
#[derive(Debug, Clone, Copy, PartialEq, Eq, Structural)]
pub enum Verdict {
    /// Nothing to do with scripts.
    Skip,
    /// A file that may have been meant as a script but cannot run.
    NotExecutable,
    /// A script.
    Script,
}

/// Whether any execute bit is set.
pub open spec fn executable(mode: u32) -> bool {
    mode & 0o111 != 0
}

/// Whether a file name is that of a document.
pub open spec fn is_document(name: Seq<char>) -> bool {
    let lower = text::ascii_lowered(name);
    ".md"@.is_suffix_of(lower) || ".txt"@.is_suffix_of(lower)
}

/// What the scan makes of an entry: names that are not text, hidden files and
/// anything but regular files do not count, and neither do documents that
/// cannot run.
pub open spec fn verdict(f: FoundView) -> Verdict {
    match f.name {
        None => Verdict::Skip,
        Some(name) => if "."@.is_prefix_of(name) || !f.is_file {
            Verdict::Skip
        } else if executable(f.mode) {
            Verdict::Script
        } else if is_document(name) {
            Verdict::Skip
        } else {
            Verdict::NotExecutable
        },
    }
}

/// What the scan makes of an entry.
pub fn judge(f: &Found) -> (r: Verdict)
    ensures
        r == verdict(f@),
{
    match &f.name {
        None => Verdict::Skip,
        Some(name) => {
            if text::starts_with(name, ".") || !f.is_file {
                return Verdict::Skip;
            }
            if f.mode & 0o111 != 0 {
                return Verdict::Script;
            }
            let lower = text::to_ascii_lowercase(name);
            if text::ends_with(&lower, ".md") || text::ends_with(&lower, ".txt") {
                Verdict::Skip
            } else {
                Verdict::NotExecutable
            }
        },
    }
}

/// A file name without its final extension.
pub open spec fn stem(name: Seq<char>) -> Seq<char> {
    match text::split_last(name, '.') {
        Some((a, _)) => if a.len() == 0 {
            name
        } else {
            a
        },
        None => name,
    }
}

/// A file name without its final extension.
pub fn file_stem(name: &str) -> (r: String)
    ensures
        r@ == stem(name@),
{
    match text::rsplit_once(name, '.') {
        Some((a, _)) => if a.as_str().is_empty() {
            text::copy(name)
        } else {
            a
        },
        None => text::copy(name),
    }
}

/// The value, or else another.
pub open spec fn or_else<T>(o: Option<T>, other: T) -> T {
    match o {
        Some(v) => v,
        None => other,
    }
}

/// The script that an entry stands for.
pub open spec fn script_view(f: FoundView) -> ScriptView {
    let name = f.name->0;
    let lines = header_lines(text::lossy_text(header_bytes(f.head)));
    ScriptView {
        file_name: name,
        path: f.path,
        title: or_else(first_value(lines, "title"@), stem(name)),
        subtitle: first_value(lines, "subtitle"@),
        mode: or_else(first_mode(lines), Mode::Silent),
        keyword: first_value(lines, "keyword"@),
    }
}

/// The script that an entry stands for, with its annotations read already.
pub fn script_of(name: &str, path: &str, ann: Ann) -> (r: Script)
    ensures
        r@ == (ScriptView {
            file_name: name@,
            path: path@,
            title: or_else(text::opt_view(ann.title), stem(name@)),
            subtitle: text::opt_view(ann.subtitle),
            mode: or_else(ann.mode, Mode::Silent),
            keyword: text::opt_view(ann.keyword),
        }),
{
    let title = match ann.title {
        Some(t) => t,
        None => file_stem(name),
    };
    let mode = match ann.mode {
        Some(m) => m,
        None => Mode::Silent,
    };
    Script {
        file_name: text::copy(name),
        path: text::copy(path),
        title,
        subtitle: ann.subtitle,
        mode,
        keyword: ann.keyword,
    }
}

/// The scripts among entries, in the entries' order.
pub open spec fn scripts_among(found: Seq<FoundView>) -> Seq<ScriptView>
    decreases found.len(),
{
    if found.len() == 0 {
        Seq::empty()
    } else if verdict(found.last()) is Script {
        scripts_among(found.drop_last()).push(script_view(found.last()))
    } else {
        scripts_among(found.drop_last())
    }
}

impl Ranked for Script {
    open spec fn ahead(a: ScriptView, b: ScriptView) -> bool {
        text::lex_before(a.title, b.title) || (a.title == b.title && text::lex_before(
            a.file_name,
            b.file_name,
        ))
    }

    proof fn lemma_asymmetric(a: ScriptView, b: ScriptView) {
        text::lemma_lex_trichotomy(a.title, b.title);
        text::lemma_lex_trichotomy(a.file_name, b.file_name);
    }

    proof fn lemma_separates(a: ScriptView, b: ScriptView, c: ScriptView) {
        text::lemma_lex_separates(a.title, b.title, c.title);
        text::lemma_lex_separates(a.file_name, b.file_name, c.file_name);
        text::lemma_lex_trichotomy(a.title, b.title);
        text::lemma_lex_trichotomy(b.title, c.title);
        text::lemma_lex_trichotomy(a.title, c.title);
    }

    fn is_ahead(&self, other: &Script) -> bool {
        text::before(&self.title, &other.title) || (text::same(&self.title, &other.title)
            && text::before(&self.file_name, &other.file_name))
    }
}

/// Scripts in listing order: by title, then by file name.
pub open spec fn in_order(scripts: Seq<ScriptView>) -> Seq<ScriptView> {
    sorted_positions::<Script>(scripts).map_values(|i: int| scripts[i])
}

/// The paths to hint at: those of files that cannot run, each once, and none
/// that was hinted at before.
pub open spec fn hinted(found: Seq<FoundView>, warned: Set<Seq<char>>) -> Seq<Seq<char>>
    decreases found.len(),
{
    if found.len() == 0 {
        Seq::empty()
    } else {
        let before = hinted(found.drop_last(), warned);
        let f = found.last();
        if verdict(f) is NotExecutable && !warned.contains(f.path) && !before.contains(f.path) {
            before.push(f.path)
        } else {
            before
        }
    }
}

/// A path is hinted at once: never again where it was hinted at before, and
/// not twice in one scan.
pub proof fn law_hints_are_given_once(
    found: Seq<FoundView>,
    warned: Set<Seq<char>>,
    i: int,
    j: int,
)
    requires
        0 <= i <= j < hinted(found, warned).len(),
    ensures
        !warned.contains(hinted(found, warned)[i]),
        i < j ==> hinted(found, warned)[i] != hinted(found, warned)[j],
    decreases found.len(),
{
    let before = hinted(found.drop_last(), warned);
    if j < before.len() {
        law_hints_are_given_once(found.drop_last(), warned, i, j);
    } else if i < j {
        law_hints_are_given_once(found.drop_last(), warned, i, i);
        assert(before.contains(before[i]));
    }
}

/// The hint for a file that cannot run.
pub fn chmod_hint(path: &str) -> (r: String)
    ensures
        r@ == "beckon: scripts: "@ + path@ + " is not executable; run chmod +x to enable it"@,
{
    text::join3("beckon: scripts: ", path, " is not executable; run chmod +x to enable it")
}

/// Whether a text is in a list.
fn among(list: &Vec<String>, s: &str) -> (r: bool)
    ensures
        r == views(list@).contains(s@),
{
    let mut i: usize = 0;
    while i < list.len()
        invariant
            i <= list@.len(),
            forall|k: int| 0 <= k < i ==> #[trigger] views(list@)[k] != s@,
        decreases list@.len() - i,
    {
        if text::same(&list[i], s) {
            assert(views(list@)[i as int] == s@);
            return true;
        }
        i = i + 1;
    }
    false
}

/// The scripts among directory entries, by title and then by file name. Files
/// that look like scripts but cannot run are hinted at once each: their paths
/// are added to `warned`, and are the result's second part.
pub fn scan_dir(found: &Vec<Found>, warned: &mut Vec<String>) -> (r: (Vec<Script>, Vec<String>))
    ensures
        views(r.0@) == in_order(scripts_among(views(found@))),
        views(r.1@) == hinted(views(found@), views(old(warned)@).to_set()),
        views(final(warned)@) == views(old(warned)@) + hinted(
            views(found@),
            views(old(warned)@).to_set(),
        ),
{
    let ghost fs = views(found@);
    let ghost w0 = views(warned@);
    let mut scripts: Vec<Script> = Vec::new();
    let mut hints: Vec<String> = Vec::new();
    let mut i: usize = 0;
    assert(w0 + Seq::<Seq<char>>::empty() =~= w0);
    while i < found.len()
        invariant
            i <= found@.len(),
            fs == views(found@),
            views(scripts@) == scripts_among(fs.take(i as int)),
            views(hints@) == hinted(fs.take(i as int), w0.to_set()),
            views(warned@) == w0 + hinted(fs.take(i as int), w0.to_set()),
        decreases found@.len() - i,
    {
        let f = &found[i];
        let ghost before = fs.take(i as int);
        let ghost ss = views(scripts@);
        let ghost hs = views(hints@);
        proof {
            assert(fs.take(i + 1).drop_last() =~= before);
            assert(fs.take(i + 1).last() == f@);
        }
        match judge(f) {
            Verdict::Skip => {},
            Verdict::NotExecutable => {
                let seen = among(warned, &f.path);
                proof {
                    let w = views(warned@);
                    assert(w.contains(f.path@) <==> w0.contains(f.path@) || hs.contains(
                        f.path@,
                    )) by {
                        if w0.contains(f.path@) {
                            let k = choose|k: int| 0 <= k < w0.len() && w0[k] == f.path@;
                            assert(w[k] == f.path@);
                        }
                        if hs.contains(f.path@) {
                            let k = choose|k: int| 0 <= k < hs.len() && hs[k] == f.path@;
                            assert(w[w0.len() + k] == f.path@);
                        }
                    }
                }
                if !seen {
                    let ghost w = views(warned@);
                    warned.push(text::copy(&f.path));
                    hints.push(text::copy(&f.path));
                    proof {
                        assert(views(warned@) =~= w.push(f.path@));
                        assert(views(hints@) =~= hs.push(f.path@));
                        assert((w0 + hs).push(f.path@) =~= w0 + hs.push(f.path@));
                    }
                }
            },
            Verdict::Script => {
                if let Some(name) = &f.name {
                    let ann = read_annotations(f.head.as_slice());
                    scripts.push(script_of(name, &f.path, ann));
                    assert(views(scripts@) =~= ss.push(script_view(f@)));
                }
            },
        }
        i = i + 1;
    }
    assert(fs.take(i as int) =~= fs);
    let p = order::sort(&scripts);
    let out = arrange(&scripts, &p);
    (out, hints)
}

/// The scripts at the given positions.
fn arrange(scripts: &Vec<Script>, p: &Vec<usize>) -> (r: Vec<Script>)
    requires
        forall|k: int| 0 <= k < p@.len() ==> #[trigger] p@[k] < scripts@.len(),
    ensures
        views(r@) == ints(p@).map_values(|i: int| views(scripts@)[i]),
{
    let mut out: Vec<Script> = Vec::new();
    let mut k: usize = 0;
    while k < p.len()
        invariant
            k <= p@.len(),
            out@.len() == k,
            forall|j: int| 0 <= j < p@.len() ==> #[trigger] p@[j] < scripts@.len(),
            forall|j: int| 0 <= j < k ==> #[trigger] out@[j] == scripts@[p@[j] as int],
        decreases p@.len() - k,
    {
        out.push(scripts[p[k]].copied());
        k = k + 1;
    }
    assert(views(out@) =~= ints(p@).map_values(|i: int| views(scripts@)[i]));
    out
}

/// The scan results of the scripts directory, with what they were scanned
/// from. A directory is scanned again only when its path or its modification
/// time changes.
pub struct ScanCache {
    pub dir: String,
    /// When the directory was changed last, in nanoseconds since the epoch;
    /// none where it does not exist.
    pub dir_mtime: Option<i128>,
    pub scripts: Vec<Script>,
    pub primed: bool,
    /// The paths that were hinted at.
    pub warned: Vec<String>,
}

impl ScanCache {
    /// Nothing scanned yet.
    pub fn new() -> (r: ScanCache)
        ensures
            !r.primed,
            r.scripts@.len() == 0,
            r.warned@.len() == 0,
            r.dir@.len() == 0,
            r.dir_mtime is None,
    {
        ScanCache {
            dir: String::new(),
            dir_mtime: None,
            scripts: Vec::new(),
            primed: false,
            warned: Vec::new(),
        }
    }

    /// Whether the scan does not stand for the directory as it is now.
    pub open spec fn stale(self, dir: Seq<char>, mtime: Option<i128>) -> bool {
        !self.primed || self.dir@ != dir || self.dir_mtime != mtime
    }

    /// Whether the directory has to be scanned again.
    pub fn is_stale(&self, dir: &str, mtime: Option<i128>) -> (r: bool)
        ensures
            r == self.stale(dir@, mtime),
    {
        if !self.primed || !text::same(&self.dir, dir) {
            return true;
        }
        match (self.dir_mtime, mtime) {
            (Some(a), Some(b)) => a != b,
            (None, None) => false,
            _ => true,
        }
    }

    /// Takes over a scan of the directory where the last one is stale, and
    /// changes nothing where it is not. The result holds the paths to hint at.
    pub fn refresh(&mut self, dir: &str, mtime: Option<i128>, found: &Vec<Found>) -> (r: Vec<
        String,
    >)
        ensures
            !final(self).stale(dir@, mtime),
            if old(self).stale(dir@, mtime) {
                &&& views(final(self).scripts@) == in_order(scripts_among(views(found@)))
                &&& views(r@) == hinted(views(found@), views(old(self).warned@).to_set())
                &&& views(final(self).warned@) == views(old(self).warned@) + views(r@)
            } else {
                *final(self) == *old(self) && r@.len() == 0
            },
    {
        if !self.is_stale(dir, mtime) {
            return Vec::new();
        }
        let (scripts, hints) = scan_dir(found, &mut self.warned);
        self.scripts = scripts;
        self.dir = text::copy(dir);
        self.dir_mtime = mtime;
        self.primed = true;
        hints
    }

    /// The discovered scripts with their annotations.
    pub fn scripts(&self) -> (r: Vec<Script>)
        ensures
            r@ == self.scripts@,
    {
        let mut out: Vec<Script> = Vec::new();
        let mut i: usize = 0;
        while i < self.scripts.len()
            invariant
                i <= self.scripts@.len(),
                out@ == self.scripts@.take(i as int),
            decreases self.scripts@.len() - i,
        {
            out.push(self.scripts[i].copied());
            i = i + 1;
            assert(self.scripts@.take(i as int) =~= self.scripts@.take(i - 1).push(
                self.scripts@[i - 1],
            ));
        }
        assert(self.scripts@.take(i as int) =~= self.scripts@);
        out
    }
}

/// The id of a script's row.
pub open spec fn script_id(file_name: Seq<char>) -> Seq<char> {
    "script."@ + file_name
}

/// The row of a script, given its path as it is displayed.
pub open spec fn item_view(script: ScriptView, shown: Seq<char>) -> ItemView {
    ItemView {
        id: script_id(script.file_name),
        title: script.title,
        subtitle: shown + " ("@ + script.mode.spelling() + ")"@,
        kind: ItemKind::Script,
    }
}

/// A script's path as it is displayed.
pub open spec fn shown_path(path: Seq<char>, home: Option<Seq<char>>) -> Seq<char> {
    paths::abbreviated(path, paths::below_home(path, home))
}

/// The row of a script, given its path as it is displayed.
pub fn item_shown(script: &Script, shown: &str) -> (r: Item)
    ensures
        r@ == item_view(script@, shown@),
{
    let head = text::join3(shown, " (", script.mode.label());
    Item {
        id: text::join("script.", &script.file_name),
        title: text::copy(&script.title),
        subtitle: text::join(&head, ")"),
        kind: ItemKind::Script,
    }
}

/// The row of a script: its id, its title, and its path below the home
/// directory with its mode.
pub fn to_item(script: &Script, home: Option<&str>) -> (r: Item)
    ensures
        r@ == item_view(
            script@,
            shown_path(
                script@.path,
                match home {
                    Some(h) => Some(h@),
                    None => None,
                },
            ),
        ),
{
    let shown = paths::abbreviate_from(&script.path, home);
    item_shown(script, &shown)
}

/// The rows of scripts, in the scripts' order.
pub fn items(scripts: &Vec<Script>, home: Option<&str>) -> (r: Vec<Item>)
    ensures
        r@.len() == scripts@.len(),
        forall|i: int|
            0 <= i < r@.len() ==> #[trigger] r@[i]@ == item_view(
                scripts@[i]@,
                shown_path(
                    scripts@[i].path@,
                    match home {
                        Some(h) => Some(h@),
                        None => None,
                    },
                ),
            ),
{
    let mut out: Vec<Item> = Vec::new();
    let mut i: usize = 0;
    while i < scripts.len()
        invariant
            i <= scripts@.len(),
            out@.len() == i,
            forall|k: int|
                0 <= k < i ==> #[trigger] out@[k]@ == item_view(
                    scripts@[k]@,
                    shown_path(
                        scripts@[k].path@,
                        match home {
                            Some(h) => Some(h@),
                            None => None,
                        },
                    ),
                ),
        decreases scripts@.len() - i,
    {
        out.push(to_item(&scripts[i], home));
        i = i + 1;
    }
    out
}

/// The first script with a file name.
pub open spec fn first_named(scripts: Seq<Script>, name: Seq<char>) -> Option<Script>
    decreases scripts.len(),
{
    if scripts.len() == 0 {
        None
    } else if scripts[0].file_name@ == name {
        Some(scripts[0])
    } else {
        first_named(scripts.skip(1), name)
    }
}

/// Resolves a row's id back to its script. Only the names of discovered
/// scripts resolve.
pub fn lookup(scripts: &Vec<Script>, id: &str) -> (r: Result<Script, String>)
    ensures
        ({
            let name = id@.skip("script."@.len() as int);
            match r {
                Ok(s) => "script."@.is_prefix_of(id@) && !name.contains('/') && first_named(
                    scripts@,
                    name,
                ) == Some(s),
                Err(e) => if !"script."@.is_prefix_of(id@) {
                    e@ == "not a script id: "@ + id@
                } else if name.contains('/') {
                    e@ == "invalid script id: "@ + id@
                } else {
                    first_named(scripts@, name) is None && e@ == "unknown script: "@ + name
                },
            }
        }),
{
    let name = match text::strip_prefix(id, "script.") {
        Some(n) => n,
        None => {
            return Err(text::join("not a script id: ", id));
        },
    };
    if text::contains_char(&name, '/') {
        return Err(text::join("invalid script id: ", id));
    }
    let mut i: usize = 0;
    assert(scripts@.skip(0) =~= scripts@);
    while i < scripts.len()
        invariant
            i <= scripts@.len(),
            first_named(scripts@, name@) == first_named(scripts@.skip(i as int), name@),
            "script."@.is_prefix_of(id@),
            name@ == id@.skip("script."@.len() as int),
            !name@.contains('/'),
        decreases scripts@.len() - i,
    {
        if text::same(&scripts[i].file_name, &name) {
            return Ok(scripts[i].copied());
        }
        assert(scripts@.skip(i as int).skip(1) =~= scripts@.skip(i + 1));
        i = i + 1;
    }
    Err(text::join("unknown script: ", &name))
}

/// The script that activating a row runs, or why there is none.
pub fn activate(scripts: &Vec<Script>, id: &str) -> (r: Result<Script, String>)
    ensures
        ({
            let name = id@.skip("script."@.len() as int);
            match r {
                Ok(s) => "script."@.is_prefix_of(id@) && !name.contains('/') && first_named(
                    scripts@,
                    name,
                ) == Some(s),
                Err(e) => if !"script."@.is_prefix_of(id@) {
                    e@ == "not a script id: "@ + id@
                } else if name.contains('/') {
                    e@ == "invalid script id: "@ + id@
                } else {
                    first_named(scripts@, name) is None && e@ == "unknown script: "@ + name
                },
            }
        }),
{
    lookup(scripts, id)
}

/// The id of a listed script leads back to a script of that file name.
pub proof fn law_listed_ids_resolve(scripts: Seq<Script>, i: int)
    requires
        0 <= i < scripts.len(),
    ensures
        ({
            let id = script_id(scripts[i].file_name@);
            let name = id.skip("script."@.len() as int);
            &&& "script."@.is_prefix_of(id)
            &&& name == scripts[i].file_name@
            &&& first_named(scripts, name) matches Some(s) && s.file_name@ == name
        }),
{
    let name = scripts[i].file_name@;
    let id = script_id(name);
    assert("script."@ =~= id.subrange(0, "script."@.len() as int));
    assert(id.skip("script."@.len() as int) =~= name);
    lemma_first_named(scripts, name, i);
}

proof fn lemma_first_named(scripts: Seq<Script>, name: Seq<char>, i: int)
    requires
        0 <= i < scripts.len(),
        scripts[i].file_name@ == name,
    ensures
        first_named(scripts, name) matches Some(s) && s.file_name@ == name,
    decreases scripts.len(),
{
    if scripts[0].file_name@ != name {
        assert(scripts.skip(1)[i - 1] == scripts[i]);
        lemma_first_named(scripts.skip(1), name, i - 1);
    }
}

/// What a look at a running script shows.
#[derive(Debug, PartialEq, Eq)]
pub enum Look {
    /// It is still running.
    Running,
    /// It has exited.
    Exited,
    /// Its state could not be read.
    Failed(String),
}

/// What to do about a running script.
#[derive(Debug, PartialEq, Eq)]
pub enum Run {
    /// Look again after the poll interval.
    Sleep,
    /// Go on to collecting its output.
    Collect,
    /// Kill it, reap it and report this.
    Kill(String),
}

/// What to do after a look at a running script. `expired` says whether its
/// time was up at that moment.
pub fn after_look(file_name: &str, look: Look, expired: bool, timeout_ms: u64) -> (r: Run)
    ensures
        match look {
            Look::Exited => r is Collect,
            Look::Running => if expired {
                r matches Run::Kill(e) && e@ == file_name@ + " timed out after "@ + text::decimal(
                    timeout_ms as nat,
                ) + " ms and was killed"@
            } else {
                r is Sleep
            },
            Look::Failed(why) => r matches Run::Kill(e) && e@ == "wait failed for "@ + file_name@
                + (": "@ + why@),
        },
{
    match look {
        Look::Exited => Run::Collect,
        Look::Running => if expired {
            let head = text::join3(file_name, " timed out after ", &text::decimal_of(timeout_ms));
            Run::Kill(text::join(&head, " ms and was killed"))
        } else {
            Run::Sleep
        },
        Look::Failed(why) => Run::Kill(
            text::join3("wait failed for ", file_name, &text::join(": ", &why)),
        ),
    }
}

/// What to do while the output of an exited script is collected.
#[derive(Debug, PartialEq, Eq)]
pub enum Collect {
    /// Look again after the poll interval.
    Sleep,
    /// All of the output is there.
    Take,
    /// Give up and report this.
    Abandon(String),
}

/// What to do while the output of an exited script is collected: the same
/// deadline bounds it, so that a background child that holds the pipes open
/// cannot block the launcher.
pub fn after_collect(file_name: &str, finished: bool, expired: bool) -> (r: Collect)
    ensures
        if finished {
            r is Take
        } else if expired {
            r matches Collect::Abandon(e) && e@ == file_name@
                + " exited but held its output pipes open past the timeout (a background child inherited them?)"@
        } else {
            r is Sleep
        },
{
    if finished {
        Collect::Take
    } else if expired {
        Collect::Abandon(
            text::join(
                file_name,
                " exited but held its output pipes open past the timeout (a background child inherited them?)",
            ),
        )
    } else {
        Collect::Sleep
    }
}

/// What a finished run gives: the trimmed standard output in output mode and
/// nothing in silent mode. A script that failed gives its status, with what it
/// wrote to standard error.
pub fn run_script(script: &Script, success: bool, status: &str, stdout: &[u8], stderr: &[u8]) -> (r:
    Result<String, String>)
    ensures
        run_result(
            script.file_name@,
            script.mode,
            success,
            status@,
            text::lossy_text(stdout@),
            text::lossy_text(stderr@),
            r,
        ),
{
    finish_run(
        script,
        success,
        status,
        &text::from_utf8_lossy(stdout),
        &text::from_utf8_lossy(stderr),
    )
}

/// Whether `r` is what a finished run gives.
pub open spec fn run_result(
    file_name: Seq<char>,
    mode: Mode,
    success: bool,
    status: Seq<char>,
    stdout: Seq<char>,
    stderr: Seq<char>,
    r: Result<String, String>,
) -> bool {
    let complaint = text::trimmed(stderr);
    let failed = file_name + " failed with "@ + status;
    match r {
        Ok(out) => success && out@ == (match mode {
            Mode::Output => text::trimmed(stdout),
            Mode::Silent => Seq::empty(),
        }),
        Err(e) => !success && e@ == (if complaint.len() == 0 {
            failed
        } else {
            failed + ": "@ + complaint
        }),
    }
}

/// What a finished run gives, with its output read as text already.
pub fn finish_run(
    script: &Script,
    success: bool,
    status: &str,
    stdout: &str,
    stderr: &str,
) -> (r: Result<String, String>)
    ensures
        run_result(script.file_name@, script.mode, success, status@, stdout@, stderr@, r),
{
    if !success {
        let complaint = text::trim(stderr);
        let failed = text::join3(&script.file_name, " failed with ", status);
        return Err(
            if complaint.as_str().is_empty() {
                failed
            } else {
                text::join3(&failed, ": ", &complaint)
            },
        );
    }
    match script.mode {
        Mode::Output => Ok(text::trim(stdout)),
        Mode::Silent => Ok(String::new()),
    }
}

/// Why a script could not be started.
pub fn cannot_run(path: &str, why: &str) -> (r: String)
    ensures
        r@ == "cannot run "@ + path@ + (": "@ + why@),
{
    text::join3("cannot run ", path, &text::join(": ", why))
}

/// The keywords of scripts, each standing for its script's id. Where several
/// scripts share a keyword, the last one has it.
pub open spec fn keyword_map(scripts: Seq<Script>) -> Map<Seq<char>, Seq<char>>
    decreases scripts.len(),
{
    if scripts.len() == 0 {
        Map::empty()
    } else {
        let before = keyword_map(scripts.drop_last());
        let s = scripts.last();
        match s.keyword {
            Some(k) => before.insert(k@, script_id(s.file_name@)),
            None => before,
        }
    }
}

/// The keywords of scripts as implicit aliases.
pub fn script_keywords(scripts: &Vec<Script>) -> (r: Table)
    ensures
        r@ == keyword_map(scripts@),
{
    let mut out = Table::new();
    let mut i: usize = 0;
    assert(scripts@.take(0) =~= Seq::<Script>::empty());
    while i < scripts.len()
        invariant
            i <= scripts@.len(),
            out@ == keyword_map(scripts@.take(i as int)),
        decreases scripts@.len() - i,
    {
        proof {
            assert(scripts@.take(i + 1).drop_last() =~= scripts@.take(i as int));
        }
        let s = &scripts[i];
        if let Some(k) = &s.keyword {
            out = out.insert(k, &text::join("script.", &s.file_name));
        }
        i = i + 1;
    }
    assert(scripts@.take(i as int) =~= scripts@);
    out
}

/// The README that is put into a new scripts directory.
pub const README_MD: &'static str = r#"# beckon script commands

Every executable file in this directory becomes a beckon command.
Drop a script here, `chmod +x` it, and it shows up in the launcher.

## Annotations

beckon reads the first 30 lines (up to 8 KiB) of each script for
comment lines of the form:

    # @beckon.title    Deploy Blog
    # @beckon.subtitle Push the static site
    # @beckon.mode     output
    # @beckon.keyword  deploy

`#`, `//`, and `--` comment markers all work, so shell, Python, Ruby,
JavaScript, Lua, SQL, and Haskell scripts can all carry annotations.
The first valid occurrence of each key wins.

- `title`: the name shown in the launcher. Defaults to the file name
  without its extension.
- `subtitle`: an optional short description.
- `mode`: `silent` (the default) runs the script quietly; `output`
  shows the script's trimmed stdout in the launcher after it runs.
- `keyword`: an optional alias word for quick invocation.

## Rules

- Hidden files and non-executable files are ignored.
- Scripts run with this directory as the working directory, with no
  stdin, and are killed after 10 seconds.
- A nonzero exit shows the script's stderr as the error.
"#;

/// The annotated example script that is installed with a new scripts
/// directory.
pub const HELLO_SH: &'static str = r#"#!/bin/sh
# @beckon.title Hello from beckon
# @beckon.subtitle Your first script command
# @beckon.mode output
echo "Hello, $(whoami)! Drop more scripts in this directory to add commands."
"#;

/// A step of setting up the scripts directory.
#[derive(Debug, PartialEq, Eq)]
pub enum Setup {
    /// Create the directory with its parents.
    CreateDir(String),
    /// Write a text file.
    Write { path: String, contents: String },
    /// Set a file's permission bits.
    SetMode { path: String, mode: u32 },
}

/// What a [`Setup`] step holds.
#[verifier::ext_equal]
pub enum SetupView {
    CreateDir(Seq<char>),
    Write(Seq<char>, Seq<char>),
    SetMode(Seq<char>, u32),
}

impl View for Setup {
    type V = SetupView;

    open spec fn view(&self) -> SetupView {
        match self {
            Setup::CreateDir(d) => SetupView::CreateDir(d@),
            Setup::Write { path, contents } => SetupView::Write(path@, contents@),
            Setup::SetMode { path, mode } => SetupView::SetMode(path@, *mode),
        }
    }
}

/// The steps that make the feature discoverable: a README and an executable
/// example in a new scripts directory. Where anything exists at that path
/// already, nothing is touched.
pub fn ensure_dir_with_example(dir: &str, exists: bool) -> (r: Vec<Setup>)
    ensures
        views(r@) == (if exists {
            Seq::<SetupView>::empty()
        } else {
            let hello = paths::joined_path(dir@, "hello.sh"@);
            seq![
                SetupView::CreateDir(dir@),
                SetupView::Write(paths::joined_path(dir@, "README.md"@), README_MD@),
                SetupView::Write(hello, HELLO_SH@),
                SetupView::SetMode(hello, 0o755),
            ]
        }),
{
    if exists {
        let none: Vec<Setup> = Vec::new();
        assert(views(none@) =~= Seq::<SetupView>::empty());
        return none;
    }
    let out = vec![
        Setup::CreateDir(text::copy(dir)),
        Setup::Write {
            path: paths::join_path(dir, "README.md"),
            contents: text::copy(README_MD),
        },
        Setup::Write { path: paths::join_path(dir, "hello.sh"), contents: text::copy(HELLO_SH) },
        Setup::SetMode { path: paths::join_path(dir, "hello.sh"), mode: 0o755 },
    ];
    proof {
        let hello = paths::joined_path(dir@, "hello.sh"@);
        assert(views(out@) =~= seq![
            SetupView::CreateDir(dir@),
            SetupView::Write(paths::joined_path(dir@, "README.md"@), README_MD@),
            SetupView::Write(hello, HELLO_SH@),
            SetupView::SetMode(hello, 0o755),
        ]);
    }
    out
}

/// Scripts are listed by title and then by file name.
pub proof fn law_scripts_are_listed_in_order(scripts: Seq<ScriptView>, i: int, j: int)
    requires
        0 <= i < j < in_order(scripts).len(),
    ensures
        !Script::ahead(in_order(scripts)[j], in_order(scripts)[i]),
{
    let p = sorted_positions::<Script>(scripts);
    order::lemma_sorted_positions::<Script>(scripts);
    assert(order::position_ahead::<Script>(scripts, p[i], p[j]));
    Script::lemma_asymmetric(scripts[p[i]], scripts[p[j]]);
}

/// No script is lost or listed twice by being put in order.
pub proof fn law_ordering_keeps_every_script(scripts: Seq<ScriptView>)
    ensures
        in_order(scripts).to_multiset() == scripts.to_multiset(),
{
    let p = sorted_positions::<Script>(scripts);
    order::lemma_sorted_positions::<Script>(scripts);
    order::lemma_order_is_permutation::<Script, ScriptView>(scripts, p, scripts);
}

/// Two characters in front of a text are its first two characters.
proof fn lemma_begins_with(t: Seq<char>)
    ensures
        "#"@.is_prefix_of(t) <==> t.len() >= 1 && t[0] == '#',
        "//"@.is_prefix_of(t) <==> t.len() >= 2 && t[0] == '/' && t[1] == '/',
        "--"@.is_prefix_of(t) <==> t.len() >= 2 && t[0] == '-' && t[1] == '-',
        "."@.is_prefix_of(t) <==> t.len() >= 1 && t[0] == '.',
        "#"@.len() == 1 && "//"@.len() == 2 && "--"@.len() == 2,
{
    reveal_strlit("#");
    reveal_strlit("//");
    reveal_strlit("--");
    reveal_strlit(".");
    if t.len() >= 1 {
        let a = t.subrange(0, 1);
        assert(a[0] == t[0]);
        assert(t[0] == '#' ==> a =~= "#"@);
        assert(t[0] == '.' ==> a =~= "."@);
    }
    if t.len() >= 2 {
        let a = t.subrange(0, 2);
        assert(a[0] == t[0] && a[1] == t[1]);
        assert(t[0] == '/' && t[1] == '/' ==> a =~= "//"@);
        assert(t[0] == '-' && t[1] == '-' ==> a =~= "--"@);
    }
}

/// A comment begins, behind white space, with a hash, two slashes or two
/// hyphens, and its marker is as long as the character repeats; what follows
/// the marker is handed out as it is. No other line is a comment.
pub proof fn law_comments_begin_with_a_marker(line: Seq<char>)
    ensures
        ({
            let t = text::trimmed_start(line);
            let marked = t.len() > 0 && (t[0] == '#' || (t.len() > 1 && t[0] == t[1] && (t[0] == '/'
                || t[0] == '-')));
            match uncommented(line) {
                Some(rest) => {
                    let n = t.len() - rest.len();
                    &&& marked && n >= 1 && rest == t.skip(n)
                    &&& forall|i: int| 0 <= i < n ==> #[trigger] t[i] == t[0]
                    &&& n < t.len() ==> t[n] != t[0]
                },
                None => !marked,
            }
        }),
{
    let t = text::trimmed_start(line);
    lemma_begins_with(t);
    if let Some(rest) = uncommented(line) {
        let m: int = if t[0] == '#' {
            1
        } else {
            2
        };
        let tail = t.skip(m);
        text::law_stripping_takes_the_whole_run(tail, t[0]);
        let n = t.len() - rest.len();
        assert(tail.skip(n - m) =~= t.skip(n));
        assert forall|i: int| 0 <= i < n implies #[trigger] t[i] == t[0] by {
            if i >= m {
                assert(tail[i - m] == t[i]);
            }
        }
        if n < t.len() {
            assert(tail[n - m] == t[n]);
        }
    }
}

/// A comment is an annotation where it is, behind white space, the fixed prefix,
/// a key and a value that is not blank, with white space between the two: the
/// key has no white space, and the value none at its ends.
pub proof fn law_annotations_hold_a_key_and_a_value(
    line: Seq<char>,
    comment: Seq<char>,
    key: Seq<char>,
    space: char,
    rest: Seq<char>,
)
    requires
        uncommented(line) == Some(comment),
        text::trimmed_start(comment) == "@beckon."@ + key.push(space) + rest,
        text::is_space(space),
        forall|i: int| 0 <= i < key.len() ==> !text::is_space(#[trigger] key[i]),
    ensures
        text::trimmed(rest).len() > 0 ==> annotation(line) == Some((key, text::trimmed(rest))),
        text::trimmed(rest).len() == 0 ==> annotation(line) is None,
{
    let c = text::trimmed_start(comment);
    let p = "@beckon."@;
    let s = key.push(space) + rest;
    assert(c =~= p + s);
    assert(c.subrange(0, p.len() as int) =~= p);
    assert(c.skip(p.len() as int) =~= s);
    assert forall|i: int| 0 <= i < key.len() implies !text::is_space(#[trigger] s[i]) by {
        assert(s[i] == key[i]);
    }
    text::lemma_leading_word(s, key.len() as int);
    assert(s.take(key.len() as int) =~= key);
    assert(s.skip(key.len() as int + 1) =~= rest);
}

/// Nothing but such a comment is an annotation.
pub proof fn law_only_comments_annotate(line: Seq<char>)
    ensures
        annotation(line) matches Some((key, value)) ==> {
            &&& uncommented(line) is Some
            &&& "@beckon."@.is_prefix_of(text::trimmed_start(uncommented(line)->0))
            &&& key.is_prefix_of(
                text::trimmed_start(uncommented(line)->0).skip("@beckon."@.len() as int),
            )
            &&& forall|i: int| 0 <= i < key.len() ==> !text::is_space(#[trigger] key[i])
            &&& value.len() > 0 && !text::is_space(value[0]) && !text::is_space(value.last())
        },
{
    if let Some((key, value)) = annotation(line) {
        let c = text::trimmed_start(uncommented(line)->0);
        let tail = c.skip("@beckon."@.len() as int);
        text::law_splitting_at_white_space(tail);
        let rest = (text::split_at_space(tail)->0).1;
        text::law_trimming_keeps_what_lies_between(rest);
        assert(key =~= tail.subrange(0, key.len() as int));
    }
}

/// Of several annotations with a key the first counts: a value in the lines
/// above is not changed by the lines below, and a line gives the value that it
/// annotates.
pub proof fn law_the_first_annotation_counts(
    a: Seq<Seq<char>>,
    b: Seq<Seq<char>>,
    line: Seq<char>,
    key: Seq<char>,
)
    ensures
        first_value(a + b, key) == (if first_value(a, key) is Some {
            first_value(a, key)
        } else {
            first_value(b, key)
        }),
        first_value(seq![line], key) == (if annotation(line) is Some && (annotation(line)->0).0
            == key {
            Some((annotation(line)->0).1)
        } else {
            None
        }),
        first_mode(a + b) == (if first_mode(a) is Some {
            first_mode(a)
        } else {
            first_mode(b)
        }),
        first_mode(seq![line]) == (if annotation(line) == Some(("mode"@, "silent"@)) {
            Some(Mode::Silent)
        } else if annotation(line) == Some(("mode"@, "output"@)) {
            Some(Mode::Output)
        } else {
            None
        }),
    decreases b.len(),
{
    reveal_with_fuel(first_value, 2);
    reveal_with_fuel(first_mode, 2);
    reveal_strlit("silent");
    reveal_strlit("output");
    assert("silent"@[0] == 's' && "output"@[0] == 'o');
    assert(seq![line].drop_last() =~= Seq::<Seq<char>>::empty());
    if b.len() == 0 {
        assert(a + b =~= a);
    } else {
        assert((a + b).drop_last() =~= a + b.drop_last());
        law_the_first_annotation_counts(a, b.drop_last(), line, key);
    }
}

/// A mode is named by its spelling and by nothing else.
pub proof fn law_modes_are_spelled(m: Mode, value: Seq<char>)
    ensures
        mode_named(value) == Some(m) <==> value == m.spelling(),
        Mode::Silent.spelling() == "silent"@,
        Mode::Output.spelling() == "output"@,
{
    reveal_strlit("silent");
    reveal_strlit("output");
    assert("silent"@[0] == 's' && "output"@[0] == 'o');
}

/// The first thirty lines and the first eight kibibytes are searched for
/// annotations, all of them and no more.
pub proof fn law_headers_are_the_first_lines(header: Seq<char>, head: Seq<u8>)
    ensures
        header_lines(header).is_prefix_of(text::lines(header)),
        header_lines(header).len() <= 30,
        header_lines(header).len() == 30 || header_lines(header).len() == text::lines(header).len(),
        header_bytes(head).is_prefix_of(head),
        header_bytes(head).len() <= 8192,
        header_bytes(head).len() == 8192 || header_bytes(head).len() == head.len(),
{
}

/// A script is a regular file that someone may execute and whose name is text
/// and not hidden. A hint is owed for one that no one may execute, unless its
/// name ends as documents do, in any case.
pub proof fn law_scripts_are_executable_files(f: FoundView)
    ensures
        ({
            let counts = f.is_file && (f.name matches Some(n) && (n.len() == 0 || n[0] != '.'));
            let runs = f.mode & 0o100 != 0 || f.mode & 0o010 != 0 || f.mode & 0o001 != 0;
            let lower = text::ascii_lowered(f.name->0);
            let document = ".md"@.is_suffix_of(lower) || ".txt"@.is_suffix_of(lower);
            &&& verdict(f) is Script <==> counts && runs
            &&& verdict(f) is NotExecutable <==> counts && !runs && !document
        }),
{
    let m = f.mode;
    assert(m & 0o111 != 0 <==> m & 0o100 != 0 || m & 0o010 != 0 || m & 0o001 != 0) by (bit_vector);
    if let Some(n) = f.name {
        lemma_begins_with(n);
    }
}

/// A file name loses its last dot and what follows it, unless the dot is its
/// first character; without a dot it stays as it is.
pub proof fn law_stems_lose_the_last_extension(a: Seq<char>, ext: Seq<char>)
    requires
        !ext.contains('.'),
    ensures
        a.len() > 0 ==> stem(a.push('.') + ext) == a,
        a.len() == 0 ==> stem(a.push('.') + ext) == a.push('.') + ext,
        stem(ext) == ext,
{
    text::lemma_split_last(a, '.', ext);
    text::lemma_split_last_none(ext, '.');
}

/// A script keeps its file name and path; its title, subtitle, mode and keyword
/// are those of its header. Without them the title is the file name's stem, the
/// script runs quietly, and there is no subtitle and no keyword.
pub proof fn law_scripts_say_what_their_header_says(f: FoundView)
    requires
        f.name is Some,
    ensures
        ({
            let s = script_view(f);
            let lines = header_lines(text::lossy_text(header_bytes(f.head)));
            &&& s.file_name == f.name->0 && s.path == f.path
            &&& s.subtitle == first_value(lines, "subtitle"@)
            &&& s.keyword == first_value(lines, "keyword"@)
            &&& first_value(lines, "title"@) matches Some(t) ==> s.title == t
            &&& first_value(lines, "title"@) is None ==> s.title == stem(f.name->0)
            &&& first_mode(lines) matches Some(m) ==> s.mode == m
            &&& first_mode(lines) is None ==> s.mode == Mode::Silent
        }),
{
}

/// All scripts among the entries are found, in the entries' order.
pub proof fn law_every_script_is_found(a: Seq<FoundView>, b: Seq<FoundView>, f: FoundView)
    ensures
        scripts_among(a + b) == scripts_among(a) + scripts_among(b),
        scripts_among(seq![f]) == (if verdict(f) is Script {
            seq![script_view(f)]
        } else {
            Seq::empty()
        }),
    decreases b.len(),
{
    reveal_with_fuel(scripts_among, 2);
    assert(seq![f].drop_last() =~= Seq::<FoundView>::empty());
    assert(Seq::<ScriptView>::empty().push(script_view(f)) =~= seq![script_view(f)]);
    if b.len() == 0 {
        assert(a + b =~= a);
    } else {
        assert((a + b).drop_last() =~= a + b.drop_last());
        law_every_script_is_found(a, b.drop_last(), f);
        assert(scripts_among(a + b) =~= scripts_among(a) + scripts_among(b));
    }
}

/// No title stands before one that comes earlier in the dictionary, and of equal
/// titles no file name does.
pub proof fn law_scripts_are_sorted_by_title(scripts: Seq<ScriptView>, i: int, j: int)
    requires
        0 <= i < j < in_order(scripts).len(),
    ensures
        ({
            let (a, b) = (in_order(scripts)[i], in_order(scripts)[j]);
            &&& !text::lex_before(b.title, a.title)
            &&& a.title == b.title ==> !text::lex_before(b.file_name, a.file_name)
        }),
{
    law_scripts_are_listed_in_order(scripts, i, j);
}

/// Every file that may have been meant as a script and was not hinted at before
/// is hinted at, and nothing else is.
pub proof fn law_every_hint_is_given(found: Seq<FoundView>, warned: Set<Seq<char>>, path: Seq<char>)
    ensures
        hinted(found, warned).contains(path) <==> !warned.contains(path) && exists|i: int|
            0 <= i < found.len() && (#[trigger] found[i]).path == path && verdict(
                found[i],
            ) is NotExecutable,
    decreases found.len(),
{
    if found.len() == 0 {
        assert(!hinted(found, warned).contains(path));
    } else {
        let head = found.drop_last();
        law_every_hint_is_given(head, warned, path);
        law_every_hint_is_given(head, warned, found.last().path);
        let before = hinted(head, warned);
        let all = hinted(found, warned);
        let f = found.last();
        if all.len() > before.len() {
            assert(all == before.push(f.path));
            assert(all[before.len() as int] == f.path);
            if before.contains(path) {
                let k = choose|k: int| 0 <= k < before.len() && before[k] == path;
                assert(all[k] == path);
            }
            if all.contains(path) && path != f.path {
                let k = choose|k: int| 0 <= k < all.len() && all[k] == path;
                assert(before[k] == path);
            }
        }
        if exists|i: int|
            0 <= i < head.len() && (#[trigger] head[i]).path == path && verdict(
                head[i],
            ) is NotExecutable {
            let i = choose|i: int|
                0 <= i < head.len() && (#[trigger] head[i]).path == path && verdict(
                    head[i],
                ) is NotExecutable;
            assert(found[i] == head[i]);
        }
        if exists|i: int|
            0 <= i < found.len() && (#[trigger] found[i]).path == path && verdict(
                found[i],
            ) is NotExecutable {
            let i = choose|i: int|
                0 <= i < found.len() && (#[trigger] found[i]).path == path && verdict(
                    found[i],
                ) is NotExecutable;
            if i < head.len() {
                assert(head[i] == found[i]);
            }
        }
        if f.path == path && verdict(f) is NotExecutable {
            assert(found[found.len() - 1] == f);
        }
    }
}

/// A scan stands for a directory only where one was made, of that directory, and
/// the directory has not been changed since.
pub proof fn law_scans_stand_for_one_state(cache: ScanCache, dir: Seq<char>, mtime: Option<i128>)
    ensures
        !cache.stale(dir, mtime) <==> cache.primed && cache.dir@ == dir && cache.dir_mtime == mtime,
{
}

/// A script's row is called by its file name and its title, and shows where it
/// lies and how it runs.
pub proof fn law_rows_show_their_script(script: ScriptView, shown: Seq<char>)
    ensures
        ({
            let row = item_view(script, shown);
            &&& row.id == "script."@ + script.file_name
            &&& row.title == script.title
            &&& script.mode == Mode::Silent ==> row.subtitle == shown + " (silent)"@
            &&& script.mode == Mode::Output ==> row.subtitle == shown + " (output)"@
        }),
        shown_path(shown, None) == shown,
{
    reveal_strlit(" (");
    reveal_strlit(")");
    reveal_strlit("silent");
    reveal_strlit("output");
    reveal_strlit(" (silent)");
    reveal_strlit(" (output)");
    assert(shown + " ("@ + "silent"@ + ")"@ =~= shown + " (silent)"@);
    assert(shown + " ("@ + "output"@ + ")"@ =~= shown + " (output)"@);
}

/// A file name resolves to the first script that has it, and to none exactly
/// where no script has it.
pub proof fn law_names_resolve_to_the_first(
    a: Seq<Script>,
    s: Script,
    b: Seq<Script>,
    name: Seq<char>,
)
    requires
        forall|i: int| 0 <= i < a.len() ==> (#[trigger] a[i]).file_name@ != name,
    ensures
        s.file_name@ == name ==> first_named(a.push(s) + b, name) == Some(s),
        first_named(a, name) is None,
    decreases a.len(),
{
    let all = a.push(s) + b;
    if a.len() == 0 {
        assert(all[0] == s);
    } else {
        let t = a.skip(1);
        assert forall|i: int| 0 <= i < t.len() implies (#[trigger] t[i]).file_name@ != name by {
            assert(t[i] == a[i + 1]);
        }
        law_names_resolve_to_the_first(t, s, b, name);
        assert(all[0] == a[0]);
        assert(all.skip(1) =~= t.push(s) + b);
    }
}

/// A run that succeeds gives the trimmed output, or nothing where the script
/// runs quietly; one that fails gives an error that names the script and the
/// status, and ends in the trimmed complaint where there is one.
pub proof fn law_runs_give_their_output(
    file_name: Seq<char>,
    mode: Mode,
    success: bool,
    status: Seq<char>,
    stdout: Seq<char>,
    stderr: Seq<char>,
    r: Result<String, String>,
)
    requires
        run_result(file_name, mode, success, status, stdout, stderr, r),
    ensures
        r is Ok <==> success,
        success && mode == Mode::Silent ==> r->Ok_0@.len() == 0,
        success && mode == Mode::Output ==> r->Ok_0@ == text::trimmed(stdout),
        !success ==> ({
            let told = file_name + " failed with "@ + status;
            &&& text::trimmed(stderr).len() == 0 ==> r->Err_0@ == told
            &&& text::trimmed(stderr).len() > 0 ==> r->Err_0@ == told + ": "@ + text::trimmed(stderr)
        }),
{
}

/// A keyword stands for the id of the last script that has it, and a word that
/// is no script's keyword stands for nothing.
pub proof fn law_keywords_stand_for_the_last_script(
    a: Seq<Script>,
    s: Script,
    b: Seq<Script>,
    keyword: Seq<char>,
)
    requires
        forall|i: int|
            0 <= i < b.len() ==> text::opt_view((#[trigger] b[i]).keyword) != Some(keyword),
    ensures
        text::opt_view(s.keyword) == Some(keyword) ==> ({
            let m = keyword_map(a.push(s) + b);
            m.contains_key(keyword) && m[keyword] == "script."@ + s.file_name@
        }),
        !keyword_map(b).contains_key(keyword),
    decreases b.len(),
{
    let all = a.push(s) + b;
    if b.len() == 0 {
        assert(all =~= a.push(s));
        assert(all.last() == s);
    } else {
        let t = b.drop_last();
        assert forall|i: int| 0 <= i < t.len() implies text::opt_view((#[trigger] t[i]).keyword)
            != Some(keyword) by {
            assert(t[i] == b[i]);
        }
        law_keywords_stand_for_the_last_script(a, s, t, keyword);
        assert(all.drop_last() =~= a.push(s) + t);
        assert(all.last() == b.last());
        assert(text::opt_view(b[b.len() - 1].keyword) != Some(keyword));
    }
}

/// What a header says is the title, the subtitle and the keyword that its lines
/// annotate first under these names, and the first mode that they name.
pub proof fn law_headers_are_read_by_key(ann: Ann, lines: Seq<Seq<char>>)
    requires
        says(ann, lines),
    ensures
        text::opt_view(ann.title) == first_value(lines, "title"@),
        text::opt_view(ann.subtitle) == first_value(lines, "subtitle"@),
        text::opt_view(ann.keyword) == first_value(lines, "keyword"@),
        ann.mode == first_mode(lines),
{
}

} // verus!
