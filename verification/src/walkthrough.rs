//! The walkthrough: a tour of the launcher inside its own panel.
//!
//! Until the tour was finished once, the first row of the empty panel offers
//! it; a word that is typed always does. Each step is one screen of rows. Return
//! on the first row goes on to the next step, the others are queries worth a
//! try. Typing leaves the tour, and Return on the last step finishes it.

use crate::order::views;
use crate::paths;
use crate::text;
use vstd::prelude::*;

verus! {

/// The file whose presence says that the tour was finished.
pub const DONE_FILE: &'static str = "walkthrough_done";

/// The query that offers the tour at any time.
pub const TOUR_WORD: &'static str = "walkthrough";

/// The title of the row that offers the tour.
pub const OFFER_TITLE: &'static str = "\u{25B8} Take the walkthrough";

/// The subtitle of the row that offers the tour.
pub const OFFER_SUBTITLE: &'static str = "a tour inside the panel";

/// The hint at the foot of the empty panel before the tour was taken.
pub const FOOTER_HINT: &'static str = "Return: take the walkthrough";

/// The hint at the foot of the panel during the tour.
pub const TOUR_FOOTER: &'static str = "Return: next \u{00B7} type anything to exit";

/// How many characters of a row's title and subtitle fit the panel's width.
pub const ROW_BUDGET: usize = 62;

/// One step of the tour: a headline, a summary of one line, and queries with
/// what they are for.
pub struct Step {
    pub title: &'static str,
    pub summary: &'static str,
    pub examples: Vec<(&'static str, &'static str)>,
}

/// What a [`Step`] holds.
#[verifier::ext_equal]
pub struct StepView {
    pub title: Seq<char>,
    pub summary: Seq<char>,
    pub examples: Seq<(Seq<char>, Seq<char>)>,
}

impl View for Step {
    type V = StepView;

    open spec fn view(&self) -> StepView {
        StepView {
            title: self.title@,
            summary: self.summary@,
            examples: views(self.examples@),
        }
    }
}

/// The tour, in the order in which it is taken.
pub open spec fn tour() -> Seq<StepView> {
    seq![
        StepView {
            title: "Welcome to beckon"@,
            summary: "type to search; it learns your habits"@,
            examples: seq![
                ("saf"@, "fuzzy matches Safari"@),
                ("terminal"@, "every app on the Mac"@),
            ],
        },
        StepView {
            title: "Drive your windows"@,
            summary: "window actions, no mouse"@,
            examples: seq![
                ("window left half"@, "halves, thirds, quarters"@),
                ("win"@, "switch to any open window"@),
                ("menu export"@, "search the app's menus"@),
            ],
        },
        StepView {
            title: "Clipboard history"@,
            summary: "secrets are never captured"@,
            examples: seq![
                ("clip"@, "Return pastes it back"@),
                ("clip invoice"@, "search your history"@),
            ],
        },
        StepView {
            title: "Stop hunting files"@,
            summary: "walk the disk from the keyboard"@,
            examples: seq![
                ("~/"@, "browse; Return drills in"@),
                ("~/Downloads"@, "Open, Reveal, Quick Look"@),
                ("file report"@, "fuzzy file search"@),
            ],
        },
        StepView {
            title: "It does math properly"@,
            summary: "exact answers, no float drift"@,
            examples: seq![
                ("0.1 + 0.2"@, "exactly 0.3"@),
                ("5 km in mi"@, "units and bases"@),
                ("uuid"@, "b64, sha256, epoch too"@),
            ],
        },
        StepView {
            title: "The deep cuts"@,
            summary: "emoji, snippets, quicklinks"@,
            examples: seq![
                ("emoji fire"@, "Return pastes the glyph"@),
                ("snip"@, "snippets with {date}"@),
                ("go google rust"@, "quicklinks with {query}"@),
            ],
        },
        StepView {
            title: "Make it yours"@,
            summary: "plain files in ~/.beckon"@,
            examples: seq![
                ("~/.beckon/config.json"@, "hotkey, theme, aliases"@),
                ("~/.beckon/scripts"@, "scripts become commands"@),
                ("hello"@, "the example script"@),
            ],
        },
    ]
}

/// The tour, in the order in which it is taken.
pub fn steps() -> (r: Vec<Step>)
    ensures
        views(r@) == tour(),
{
    let r = vec![
        Step {
            title: "Welcome to beckon",
            summary: "type to search; it learns your habits",
            examples: vec![
                ("saf", "fuzzy matches Safari"),
                ("terminal", "every app on the Mac"),
            ],
        },
        Step {
            title: "Drive your windows",
            summary: "window actions, no mouse",
            examples: vec![
                ("window left half", "halves, thirds, quarters"),
                ("win", "switch to any open window"),
                ("menu export", "search the app's menus"),
            ],
        },
        Step {
            title: "Clipboard history",
            summary: "secrets are never captured",
            examples: vec![
                ("clip", "Return pastes it back"),
                ("clip invoice", "search your history"),
            ],
        },
        Step {
            title: "Stop hunting files",
            summary: "walk the disk from the keyboard",
            examples: vec![
                ("~/", "browse; Return drills in"),
                ("~/Downloads", "Open, Reveal, Quick Look"),
                ("file report", "fuzzy file search"),
            ],
        },
        Step {
            title: "It does math properly",
            summary: "exact answers, no float drift",
            examples: vec![
                ("0.1 + 0.2", "exactly 0.3"),
                ("5 km in mi", "units and bases"),
                ("uuid", "b64, sha256, epoch too"),
            ],
        },
        Step {
            title: "The deep cuts",
            summary: "emoji, snippets, quicklinks",
            examples: vec![
                ("emoji fire", "Return pastes the glyph"),
                ("snip", "snippets with {date}"),
                ("go google rust", "quicklinks with {query}"),
            ],
        },
        Step {
            title: "Make it yours",
            summary: "plain files in ~/.beckon",
            examples: vec![
                ("~/.beckon/config.json", "hotkey, theme, aliases"),
                ("~/.beckon/scripts", "scripts become commands"),
                ("hello", "the example script"),
            ],
        },
    ];
    proof {
        let t = tour();
        assert forall|i: int| 0 <= i < t.len() implies views(r@)[i] == t[i] by {
            assert(r@[i]@.examples =~= t[i].examples);
        }
        assert(views(r@) =~= t);
    }
    r
}

/// Where the file that says that the tour was finished lies.
pub fn done_path_in(root: &str) -> (r: String)
    ensures
        r@ == paths::joined_path(root@, DONE_FILE@),
{
    paths::join_path(root, DONE_FILE)
}

/// A row as title, subtitle, and whether Return goes on from it.
pub open spec fn lead_row(index: int) -> (Seq<char>, Seq<char>, bool) {
    let step = tour()[index];
    let title = if index + 1 == tour().len() {
        "\u{2713} "@ + step.title
    } else {
        "\u{25B8} "@ + text::decimal((index + 1) as nat) + "/"@ + (text::decimal(tour().len())
            + " "@ + step.title)
    };
    (title, step.summary, true)
}

/// The row of a query worth a try.
pub open spec fn example_row(example: (Seq<char>, Seq<char>)) -> (Seq<char>, Seq<char>, bool) {
    ("try: "@ + example.0, example.1, false)
}

/// The rows of a step.
pub open spec fn rows_of(index: int) -> Seq<(Seq<char>, Seq<char>, bool)> {
    seq![lead_row(index)] + tour()[index].examples.map_values(
        |e: (Seq<char>, Seq<char>)| example_row(e),
    )
}

/// The rows of a step: the one that goes on, then the queries. None past the
/// last step.
pub fn step_rows(index: usize) -> (r: Option<Vec<(String, String, bool)>>)
    ensures
        match r {
            Some(rows) => index < tour().len() && views(rows@) == rows_of(index as int),
            None => index >= tour().len(),
        },
{
    let all = steps();
    assert(views(all@).len() == all@.len());
    if index >= all.len() {
        return None;
    }
    let step = &all[index];
    assert(views(all@)[index as int] == step@);
    let title = if index == all.len() - 1 {
        text::join("\u{2713} ", step.title)
    } else {
        let before = text::join3("\u{25B8} ", &text::decimal_of(index as u64 + 1), "/");
        text::join(&before, &text::join3(&text::decimal_of(all.len() as u64), " ", step.title))
    };
    let mut rows = vec![(title, text::copy(step.summary), true)];
    assert(rows@[0]@ == lead_row(index as int));
    let mut i: usize = 0;
    while i < step.examples.len()
        invariant
            i <= step.examples@.len(),
            rows@.len() == i + 1,
            rows@[0]@ == lead_row(index as int),
            forall|k: int|
                1 <= k < rows@.len() ==> #[trigger] rows@[k]@ == example_row(
                    step.examples@[k - 1]@,
                ),
        decreases step.examples@.len() - i,
    {
        let (query, why) = step.examples[i];
        rows.push((text::join("try: ", query), text::copy(why), false));
        assert(rows@[i + 1]@ == example_row(step.examples@[i as int]@));
        i = i + 1;
    }
    proof {
        assert(tour()[index as int].examples == views(step.examples@));
        assert(views(rows@) =~= rows_of(index as int));
    }
    Some(rows)
}

/// How far the user is in the tour.
#[derive(Debug, Clone, Copy, PartialEq, Eq)]
pub struct Tour {
    /// Whether it was finished once.
    pub done: bool,
    /// The step that the panel shows, none outside the tour.
    pub step: Option<usize>,
}

impl Tour {
    /// Whether the rows of a query begin with one that offers the tour: those of
    /// the empty query do until it is finished, and those of one word always.
    pub open spec fn offers(self, query: Seq<char>) -> bool {
        query == TOUR_WORD@ || (query.len() == 0 && !self.done)
    }

    /// The tour after Return on the row that offers it, or on the first row of a
    /// step: the first step, the next one, or the end.
    pub open spec fn gone_on(self) -> Tour {
        match self.step {
            None => Tour { done: self.done, step: Some(0) },
            Some(i) => if i + 1 < tour().len() {
                Tour { done: self.done, step: Some((i + 1) as usize) }
            } else {
                Tour { done: true, step: None }
            },
        }
    }

    /// The tour after something was typed.
    pub open spec fn left(self) -> Tour {
        Tour { done: self.done, step: None }
    }

    /// The hint at the foot of the panel, where there is one.
    pub open spec fn hint(self, query: Seq<char>) -> Option<Seq<char>> {
        if self.step is Some {
            Some(TOUR_FOOTER@)
        } else if query.len() == 0 && !self.done {
            Some(FOOTER_HINT@)
        } else {
            None
        }
    }

    /// The tour as the launcher starts: not under way.
    pub fn new(done: bool) -> (r: Tour)
        ensures
            r == (Tour { done, step: None }),
    {
        Tour { done, step: None }
    }

    /// Whether the rows of a query begin with one that offers the tour.
    pub fn is_offered(&self, query: &str) -> (r: bool)
        ensures
            r == self.offers(query@),
    {
        text::same(query, TOUR_WORD) || (query.is_empty() && !self.done)
    }

    /// Goes on with the tour. Returns whether that finished it, which is to be
    /// recorded.
    pub fn go_on(&mut self) -> (finished: bool)
        ensures
            *final(self) == old(self).gone_on(),
            finished == (final(self).step is None),
            finished ==> final(self).done,
    {
        let n: usize = steps().len();
        assert(n == tour().len());
        match self.step {
            None => {
                self.step = Some(0);
                false
            },
            Some(i) => {
                if i < n - 1 {
                    self.step = Some(i + 1);
                    false
                } else {
                    self.step = None;
                    self.done = true;
                    true
                }
            },
        }
    }

    /// Leaves the tour, as typing does.
    pub fn leave(&mut self)
        ensures
            *final(self) == old(self).left(),
    {
        self.step = None;
    }

    /// The hint at the foot of the panel, where there is one.
    pub fn footer(&self, query: &str) -> (r: Option<&'static str>)
        ensures
            match r {
                Some(line) => self.hint(query@) == Some(line@),
                None => self.hint(query@) is None,
            },
    {
        if self.step.is_some() {
            Some(TOUR_FOOTER)
        } else if query.is_empty() && !self.done {
            Some(FOOTER_HINT)
        } else {
            None
        }
    }
}

/// The tour after so many times Return on a first row.
pub open spec fn after_returns(t: Tour, times: nat) -> Tour
    decreases times,
{
    if times == 0 {
        t
    } else {
        after_returns(t, (times - 1) as nat).gone_on()
    }
}

/// From the row that offers the tour, Return leads through every step in order,
/// and once more past the last ends the tour and marks it finished, not before.
pub proof fn law_return_leads_through_every_step(t: Tour, times: nat)
    requires
        t.step is None,
        1 <= times <= tour().len() + 1,
    ensures
        times <= tour().len() ==> after_returns(t, times) == (Tour {
            done: t.done,
            step: Some((times - 1) as usize),
        }),
        times == tour().len() + 1 ==> after_returns(t, times) == (Tour { done: true, step: None }),
    decreases times,
{
    reveal_with_fuel(after_returns, 2);
    if times > 1 {
        law_return_leads_through_every_step(t, (times - 1) as nat);
    }
}

/// Typing leaves the tour and finishes nothing: where it was not finished, the
/// empty panel offers it again.
pub proof fn law_typing_leaves_the_tour(t: Tour)
    ensures
        t.left().step is None,
        t.left().done == t.done,
        !t.done ==> t.left().offers(Seq::empty()) && t.left().hint(Seq::empty()) == Some(
            FOOTER_HINT@,
        ),
{
}

/// Finishing the tour retires the row of the empty panel, for good; the word
/// that offers the tour goes on doing so.
pub proof fn law_finishing_retires_the_offer(t: Tour, times: nat)
    requires
        t.done,
    ensures
        after_returns(t, times).done,
        !after_returns(t, times).offers(Seq::empty()),
        !after_returns(t, times).left().offers(Seq::empty()),
        after_returns(t, times).offers(TOUR_WORD@),
    decreases times,
{
    reveal_strlit("walkthrough");
    assert(TOUR_WORD@.len() == 11);
    if times > 0 {
        law_finishing_retires_the_offer(t, (times - 1) as nat);
    }
}

/// The queries of all steps, in order.
pub open spec fn examples_of(steps: Seq<StepView>) -> Seq<(Seq<char>, Seq<char>)>
    decreases steps.len(),
{
    if steps.len() == 0 {
        Seq::empty()
    } else {
        examples_of(steps.drop_last()) + steps.last().examples
    }
}

/// The queries of all steps as one list, with what they are for.
pub fn tips() -> (r: Vec<(&'static str, &'static str)>)
    ensures
        views(r@) == examples_of(tour()),
{
    let all = steps();
    let mut out: Vec<(&'static str, &'static str)> = Vec::new();
    let mut i: usize = 0;
    assert(views(all@).take(0) =~= Seq::empty());
    assert(views(out@) =~= Seq::empty());
    while i < all.len()
        invariant
            i <= all@.len(),
            views(out@) == examples_of(views(all@).take(i as int)),
        decreases all@.len() - i,
    {
        let step = &all[i];
        let ghost before = views(out@);
        let ghost shown = views(step.examples@);
        let mut k: usize = 0;
        assert(views(out@) =~= before + shown.take(0));
        while k < step.examples.len()
            invariant
                k <= step.examples@.len(),
                shown == views(step.examples@),
                views(out@) == before + shown.take(k as int),
            decreases step.examples@.len() - k,
        {
            let ghost so_far = views(out@);
            out.push(step.examples[k]);
            assert(views(out@) =~= so_far.push(shown[k as int]));
            assert(before + shown.take(k + 1) =~= so_far.push(shown[k as int]));
            k = k + 1;
        }
        proof {
            assert(shown.take(k as int) =~= shown);
            let done = views(all@).take(i + 1);
            assert(done.drop_last() =~= views(all@).take(i as int));
            assert(done.last() == step@);
        }
        i = i + 1;
    }
    assert(views(all@).take(i as int) =~= tour());
    out
}

/// The row that offers the tour fits the panel's width.
pub proof fn law_the_offer_fits_the_panel()
    ensures
        OFFER_TITLE@.len() + OFFER_SUBTITLE@.len() <= ROW_BUDGET,
{
    reveal_strlit("\u{25B8} Take the walkthrough");
    reveal_strlit("a tour inside the panel");
}

/// Every row of every step fits the panel's width.
pub proof fn law_every_row_fits_the_panel(index: int, row: int)
    requires
        0 <= index < tour().len(),
        0 <= row < rows_of(index).len(),
    ensures
        rows_of(index)[row].0.len() + rows_of(index)[row].1.len() <= ROW_BUDGET,
{
    reveal_strlit("Welcome to beckon");
    reveal_strlit("type to search; it learns your habits");
    reveal_strlit("saf");
    reveal_strlit("fuzzy matches Safari");
    reveal_strlit("terminal");
    reveal_strlit("every app on the Mac");
    reveal_strlit("Drive your windows");
    reveal_strlit("window actions, no mouse");
    reveal_strlit("window left half");
    reveal_strlit("halves, thirds, quarters");
    reveal_strlit("win");
    reveal_strlit("switch to any open window");
    reveal_strlit("menu export");
    reveal_strlit("search the app's menus");
    reveal_strlit("Clipboard history");
    reveal_strlit("secrets are never captured");
    reveal_strlit("clip");
    reveal_strlit("Return pastes it back");
    reveal_strlit("clip invoice");
    reveal_strlit("search your history");
    reveal_strlit("Stop hunting files");
    reveal_strlit("walk the disk from the keyboard");
    reveal_strlit("~/");
    reveal_strlit("browse; Return drills in");
    reveal_strlit("~/Downloads");
    reveal_strlit("Open, Reveal, Quick Look");
    reveal_strlit("file report");
    reveal_strlit("fuzzy file search");
    reveal_strlit("It does math properly");
    reveal_strlit("exact answers, no float drift");
    reveal_strlit("0.1 + 0.2");
    reveal_strlit("exactly 0.3");
    reveal_strlit("5 km in mi");
    reveal_strlit("units and bases");
    reveal_strlit("uuid");
    reveal_strlit("b64, sha256, epoch too");
    reveal_strlit("The deep cuts");
    reveal_strlit("emoji, snippets, quicklinks");
    reveal_strlit("emoji fire");
    reveal_strlit("Return pastes the glyph");
    reveal_strlit("snip");
    reveal_strlit("snippets with {date}");
    reveal_strlit("go google rust");
    reveal_strlit("quicklinks with {query}");
    reveal_strlit("Make it yours");
    reveal_strlit("plain files in ~/.beckon");
    reveal_strlit("~/.beckon/config.json");
    reveal_strlit("hotkey, theme, aliases");
    reveal_strlit("~/.beckon/scripts");
    reveal_strlit("scripts become commands");
    reveal_strlit("hello");
    reveal_strlit("the example script");
    reveal_strlit("try: ");
    reveal_strlit("/");
    reveal_strlit(" ");
    reveal_strlit("\u{2713} ");
    reveal_strlit("\u{25B8} ");
    if row == 0 {
        assert(text::decimal((index + 1) as nat).len() == 1);
        assert(text::decimal(tour().len()).len() == 1);
    } else {
        assert(rows_of(index)[row] == example_row(tour()[index].examples[row - 1]));
    }
}

/// Return goes on from the first row of a step and from no other.
pub proof fn law_only_the_first_row_goes_on(index: int, row: int)
    requires
        0 <= index < tour().len(),
        0 <= row < rows_of(index).len(),
    ensures
        rows_of(index)[row].2 == (row == 0),
{
}

/// A step leads with its headline and summary: the last one checked off, the
/// others with their number out of all. Each query worth a try follows as it is
/// typed, with what it is for, in the step's order.
pub proof fn law_steps_show_their_queries(index: int, k: int)
    requires
        0 <= index < tour().len(),
        0 <= k < tour()[index].examples.len(),
    ensures
        ({
            let step = tour()[index];
            let rows = rows_of(index);
            &&& rows.len() == step.examples.len() + 1
            &&& rows[0].1 == step.summary
            &&& index < tour().len() - 1 ==> rows[0].0 == "\u{25B8} "@ + text::decimal(
                (index + 1) as nat,
            ) + "/"@ + text::decimal(tour().len()) + " "@ + step.title
            &&& index == tour().len() - 1 ==> rows[0].0 == "\u{2713} "@ + step.title
            &&& rows[k + 1] == ("try: "@ + step.examples[k].0, step.examples[k].1, false)
        }),
{
    let step = tour()[index];
    let (n, m) = (text::decimal((index + 1) as nat), text::decimal(tour().len()));
    assert("\u{25B8} "@ + n + "/"@ + (m + " "@ + step.title) =~= "\u{25B8} "@ + n + "/"@ + m + " "@
        + step.title);
}

/// The tour is offered by its word at any time, and by the empty panel until it
/// was finished; by nothing else. The foot of the panel says how to go on during
/// the tour, how to take it on the empty panel until it was finished, and
/// nothing otherwise.
pub proof fn law_the_tour_is_offered_until_it_is_done(t: Tour, query: Seq<char>)
    ensures
        t.offers("walkthrough"@),
        query != "walkthrough"@ ==> (t.offers(query) <==> query.len() == 0 && !t.done),
        t.step is Some ==> t.hint(query) == Some("Return: next \u{00B7} type anything to exit"@),
        t.step is None && query.len() == 0 && !t.done ==> t.hint(query) == Some(
            "Return: take the walkthrough"@,
        ),
        t.step is None && (query.len() > 0 || t.done) ==> t.hint(query) is None,
        t.left().step is None && t.left().done == t.done,
{
}

/// The list of all queries holds those of each step, one step after the other.
pub proof fn law_tips_are_the_queries_of_all_steps(a: Seq<StepView>, b: Seq<StepView>, s: StepView)
    ensures
        examples_of(a + b) == examples_of(a) + examples_of(b),
        examples_of(seq![s]) == s.examples,
    decreases b.len(),
{
    reveal_with_fuel(examples_of, 2);
    assert(seq![s].drop_last() =~= Seq::<StepView>::empty());
    assert(Seq::<(Seq<char>, Seq<char>)>::empty() + s.examples =~= s.examples);
    if b.len() == 0 {
        assert(a + b =~= a);
        assert(examples_of(a) + examples_of(b) =~= examples_of(a));
    } else {
        assert((a + b).drop_last() =~= a + b.drop_last());
        law_tips_are_the_queries_of_all_steps(a, b.drop_last(), s);
        assert(examples_of(a + b) =~= examples_of(a) + examples_of(b));
    }
}

} // verus!
