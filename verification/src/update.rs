//! Update monitoring: classifies the merged output lines of the update
//! subprocess, renders transfer progress as a fixed-width bar, tracks the
//! last error line, and decides the final outcome from the exit status.

use vstd::prelude::*;

verus! {

use crate::percent::find_percentage;
use crate::percent::percentage_of;
use crate::text::chars_to_string;
use crate::text::str_chars;

/// `needle` occurs in `hay` at position `i`.
pub open spec fn contains_at(hay: Seq<char>, needle: Seq<char>, i: int) -> bool {
    0 <= i && i + needle.len() <= hay.len() && hay.subrange(i, i + needle.len()) == needle
}

/// `needle` occurs somewhere in `hay`.
pub open spec fn contains_sub(hay: Seq<char>, needle: Seq<char>) -> bool {
    exists|i: int| contains_at(hay, needle, i)
}

/// Whether `needle` occurs in `hay` starting at `i`.
#[verifier::loop_isolation(false)]
fn matches_at(hay: &Vec<char>, needle: &Vec<char>, i: usize) -> (r: bool)
    requires
        i + needle@.len() <= hay@.len(),
    ensures
        r == contains_at(hay@, needle@, i as int),
{
    proof {
        assert(hay@.len() == hay.len());
    }
    let mut k: usize = 0;
    let mut eq = true;
    while k < needle.len()
        invariant
            k <= needle@.len(),
            eq ==> (forall|j: int| 0 <= j < k ==> #[trigger] hay@[i + j] == needle@[j]),
            !eq ==> (exists|j: int| 0 <= j < needle@.len() && #[trigger] hay@[i + j] != needle@[j]),
        decreases needle@.len() - k,
    {
        if hay[i + k] != needle[k] {
            eq = false;
            proof {
                assert(hay@[i + k as int] != needle@[k as int]);
            }
        }
        k = k + 1;
    }
    proof {
        let sub = hay@.subrange(i as int, i + needle@.len());
        if eq {
            assert forall|j: int| 0 <= j < needle@.len() implies sub[j] == needle@[j] by {
                assert(hay@[i + j] == needle@[j]);
            }
            assert(sub =~= needle@);
        } else {
            let j = choose|j: int| 0 <= j < needle@.len() && #[trigger] hay@[i + j] != needle@[j];
            assert(sub[j] != needle@[j]);
        }
    }
    eq
}

/// Whether `needle` occurs anywhere in `hay`.
#[verifier::loop_isolation(false)]
pub(crate) fn contains_chars(hay: &Vec<char>, needle: &Vec<char>) -> (r: bool)
    ensures
        r == contains_sub(hay@, needle@),
{
    if needle.len() == 0 {
        proof {
            assert(hay@.subrange(0, 0) =~= needle@);
            assert(contains_at(hay@, needle@, 0));
        }
        return true;
    }
    if needle.len() > hay.len() {
        proof {
            assert(forall|i: int| !contains_at(hay@, needle@, i));
        }
        return false;
    }
    let bound: usize = hay.len() - needle.len();
    let mut i: usize = 0;
    while i <= bound
        invariant
            i <= bound + 1,
            forall|j: int| 0 <= j < i ==> !contains_at(hay@, needle@, j),
        decreases bound - i + 1,
    {
        if matches_at(hay, needle, i) {
            return true;
        }
        i = i + 1;
    }
    proof {
        assert forall|j: int| !contains_at(hay@, needle@, j) by {
            if 0 <= j < i {
                assert(!contains_at(hay@, needle@, j));
            }
        }
    }
    false
}

/// An ASCII whitespace character, as trimmed from status lines.
pub open spec fn is_space(c: char) -> bool {
    c == ' ' || c == '\t' || c == '\n' || c == '\r'
}

/// `s` without leading whitespace.
pub open spec fn trim_front(s: Seq<char>) -> Seq<char>
    decreases s.len(),
{
    if s.len() > 0 && is_space(s[0]) {
        trim_front(s.drop_first())
    } else {
        s
    }
}

/// `s` without trailing whitespace.
pub open spec fn trim_back(s: Seq<char>) -> Seq<char>
    decreases s.len(),
{
    if s.len() > 0 && is_space(s.last()) {
        trim_back(s.drop_last())
    } else {
        s
    }
}

/// `s` without leading and trailing whitespace.
pub open spec fn trim_spec(s: Seq<char>) -> Seq<char> {
    trim_back(trim_front(s))
}

proof fn lemma_trim_front_at(s: Seq<char>, k: int)
    requires
        0 <= k <= s.len(),
        forall|j: int| 0 <= j < k ==> is_space(#[trigger] s[j]),
        k < s.len() ==> !is_space(s[k]),
    ensures
        trim_front(s) == s.skip(k),
    decreases s.len(),
{
    if s.len() == 0 {
        assert(trim_front(s) =~= s.skip(k));
    } else if k == 0 {
        assert(trim_front(s) =~= s.skip(0));
    } else {
        assert(is_space(s[0]));
        assert forall|j: int| 0 <= j < k - 1 implies is_space(#[trigger] s.drop_first()[j]) by {
            assert(s.drop_first()[j] == s[j + 1]);
        }
        lemma_trim_front_at(s.drop_first(), k - 1);
        assert(s.drop_first().skip(k - 1) =~= s.skip(k));
    }
}

proof fn lemma_trim_back_at(s: Seq<char>, k: int)
    requires
        0 <= k <= s.len(),
        forall|j: int| k <= j < s.len() ==> is_space(#[trigger] s[j]),
        k > 0 ==> !is_space(s[k - 1]),
    ensures
        trim_back(s) == s.take(k),
    decreases s.len(),
{
    if s.len() == 0 {
        assert(trim_back(s) =~= s.take(k));
    } else if k == s.len() {
        assert(!is_space(s.last()));
        assert(trim_back(s) =~= s.take(k));
    } else {
        assert(is_space(s.last()));
        lemma_trim_back_at(s.drop_last(), k);
        assert(s.drop_last().take(k) =~= s.take(k));
    }
}

/// `v` without leading and trailing whitespace, matching `trim_spec`.
pub(crate) fn trim_chars(v: &Vec<char>) -> (r: Vec<char>)
    ensures
        r@ == trim_spec(v@),
{
    let n = v.len();
    let mut a: usize = 0;
    while a < n
        invariant
            n == v@.len(),
            a <= n,
            forall|j: int| 0 <= j < a ==> is_space(#[trigger] v@[j]),
        ensures
            n == v@.len(),
            a <= n,
            forall|j: int| 0 <= j < a ==> is_space(#[trigger] v@[j]),
            a < n ==> !is_space(v@[a as int]),
        decreases n - a,
    {
        let c = v[a];
        if c == ' ' || c == '\t' || c == '\n' || c == '\r' {
            a = a + 1;
        } else {
            break ;
        }
    }
    let mut b: usize = n;
    while b > a
        invariant
            n == v@.len(),
            a <= b <= n,
            forall|j: int| b <= j < n ==> is_space(#[trigger] v@[j]),
        ensures
            n == v@.len(),
            a <= b <= n,
            forall|j: int| b <= j < n ==> is_space(#[trigger] v@[j]),
            b > a ==> !is_space(v@[b - 1]),
        decreases b,
    {
        let c = v[b - 1];
        if c == ' ' || c == '\t' || c == '\n' || c == '\r' {
            b = b - 1;
        } else {
            break ;
        }
    }
    proof {
        lemma_trim_front_at(v@, a as int);
        let t = v@.skip(a as int);
        assert forall|j: int| (b - a) <= j < t.len() implies is_space(#[trigger] t[j]) by {
            assert(t[j] == v@[a + j]);
        }
        if b > a {
            assert(t[b - a - 1] == v@[b - 1]);
        }
        lemma_trim_back_at(t, b - a);
        assert(t.take(b - a) =~= v@.subrange(a as int, b as int));
    }
    let mut r: Vec<char> = Vec::new();
    let mut i: usize = a;
    while i < b
        invariant
            n == v@.len(),
            a <= i <= b <= n,
            r@ == v@.subrange(a as int, i as int),
        decreases b - i,
    {
        r.push(v[i]);
        i = i + 1;
        assert(r@ =~= v@.subrange(a as int, i as int));
    }
    r
}

/// `s` with every `'='` marker replaced by a space.
pub open spec fn strip_markers(s: Seq<char>) -> Seq<char> {
    s.map_values(
        |c: char|
            if c == '=' {
                ' '
            } else {
                c
            },
    )
}

/// Replaces every `'='` by a space, matching `strip_markers`.
#[verifier::loop_isolation(false)]
fn strip_markers_exec(v: &Vec<char>) -> (r: Vec<char>)
    ensures
        r@ == strip_markers(v@),
{
    let mut r: Vec<char> = Vec::new();
    let mut i: usize = 0;
    while i < v.len()
        invariant
            i <= v@.len(),
            r@ == strip_markers(v@.take(i as int)),
        decreases v@.len() - i,
    {
        let c = v[i];
        if c == '=' {
            r.push(' ');
        } else {
            r.push(c);
        }
        i = i + 1;
        assert(r@ =~= strip_markers(v@.take(i as int)));
    }
    assert(v@.take(v@.len() as int) =~= v@);
    r
}

/// The number of filled cells of the progress bar: the percentage halved,
/// rounded up.
pub open spec fn bar_cells(p: int) -> int {
    (p + 1) / 2
}

/// A fifty-cell progress bar: filled cells, then blanks.
pub open spec fn bar_chars(p: int) -> Seq<char>
    recommends
        0 <= p <= 100,
{
    Seq::new(bar_cells(p) as nat, |i: int| '=') + Seq::new(
        (50 - bar_cells(p)) as nat,
        |i: int| ' ',
    )
}

/// Renders the fifty-cell progress bar for a percentage.
#[verifier::loop_isolation(false)]
pub fn render_bar(p: u8) -> (s: String)
    requires
        p <= 100,
    ensures
        s@ == bar_chars(p as int),
{
    let filled: usize = ((p as usize) + 1) / 2;
    let mut cells: Vec<char> = Vec::new();
    let mut i: usize = 0;
    while i < filled
        invariant
            i <= filled,
            cells@ == Seq::new(i as nat, |k: int| '='),
        decreases filled - i,
    {
        cells.push('=');
        i = i + 1;
        assert(cells@ =~= Seq::new(i as nat, |k: int| '='));
    }
    let mut j: usize = 0;
    while j < 50 - filled
        invariant
            j <= 50 - filled,
            cells@ == Seq::new(filled as nat, |k: int| '=') + Seq::new(j as nat, |k: int| ' '),
        decreases 50 - filled - j,
    {
        cells.push(' ');
        j = j + 1;
        assert(cells@ =~= Seq::new(filled as nat, |k: int| '=') + Seq::new(
            j as nat,
            |k: int| ' ',
        ));
    }
    chars_to_string(&cells)
}

/// The percentage a progress line names, or zero when it names none.
pub open spec fn percent_or_zero(t: Seq<char>) -> int {
    match percentage_of(t) {
        Some(p) => p as int,
        None => 0,
    }
}

/// The status report synthesized from one output line, if the line warrants
/// one: a phase change for lines carrying the section marker, a progress
/// report with a bar for lines carrying the transfer token, nothing else.
pub open spec fn report_of(line: Seq<char>) -> Option<Seq<char>> {
    if contains_sub(line, "====="@) {
        Some("Updating ALAS: "@ + trim_spec(strip_markers(line)))
    } else if contains_sub(line, "objects:"@) {
        Some(
            "Updating ALAS: "@ + trim_spec(line) + "\n["@ + bar_chars(
                percent_or_zero(trim_spec(line)),
            ) + "]"@,
        )
    } else {
        None
    }
}

/// Classifies one output line, matching `report_of`.
pub fn classify_line(line: &str) -> (r: Option<String>)
    ensures
        match (r, report_of(line@)) {
            (Some(x), Some(y)) => x@ == y,
            (None, None) => true,
            _ => false,
        },
{
    let chars = str_chars(line);
    let marker = str_chars("=====");
    let token = str_chars("objects:");
    if contains_chars(&chars, &marker) {
        let stripped = strip_markers_exec(&chars);
        let trimmed = trim_chars(&stripped);
        let t = chars_to_string(&trimmed);
        let mut out: String = "Updating ALAS: ".to_owned();
        out.append(t.as_str());
        Some(out)
    } else if contains_chars(&chars, &token) {
        let trimmed = trim_chars(&chars);
        let t = chars_to_string(&trimmed);
        let p: u8 = match find_percentage(t.as_str()) {
            Some(p) => p,
            None => 0,
        };
        let bar = render_bar(p);
        let mut out: String = "Updating ALAS: ".to_owned();
        out.append(t.as_str());
        out.append("\n[");
        out.append(bar.as_str());
        out.append("]");
        Some(out)
    } else {
        None
    }
}

/// How an update run ended: either the subprocess exited successfully, or
/// it failed, carrying the last error line observed (or a generic message
/// when none was).
pub enum UpdateOutcome {
    Success,
    Failure(String),
}

/// Tracks what the update's merged output stream has shown so far: the last
/// line seen on the error stream (empty until one is seen).
pub struct UpdateMonitor {
    last_err: String,
}

impl UpdateMonitor {
    /// The last error line seen so far.
    pub closed spec fn last_error(&self) -> Seq<char> {
        self.last_err@
    }

    /// A monitor that has seen nothing.
    pub fn new() -> (m: Self)
        ensures
            m.last_error() == Seq::<char>::empty(),
    {
        UpdateMonitor { last_err: String::new() }
    }

    /// Takes in one merged output line: remembers it when it came from the
    /// error stream, and hands back the status report it warrants, if any.
    pub fn process_line(&mut self, from_err: bool, line: &str) -> (report: Option<String>)
        ensures
            final(self).last_error() == (if from_err {
                line@
            } else {
                old(self).last_error()
            }),
            match (report, report_of(line@)) {
                (Some(x), Some(y)) => x@ == y,
                (None, None) => true,
                _ => false,
            },
    {
        let report = classify_line(line);
        if from_err {
            self.last_err = line.to_owned();
        }
        report
    }

    /// Decides the outcome once the subprocess has exited: success exactly
    /// on a successful exit status; otherwise a failure carrying the last
    /// error line, or the generic message when no error line was seen.
    pub fn conclude(&self, exit_ok: bool) -> (o: UpdateOutcome)
        ensures
            match o {
                UpdateOutcome::Success => exit_ok,
                UpdateOutcome::Failure(m) => !exit_ok && m@ == (if self.last_error().len() == 0 {
                    "Failed to update repository"@
                } else {
                    self.last_error()
                }),
            },
{
        if exit_ok {
            UpdateOutcome::Success
        } else if self.last_err.as_str().is_empty() {
            UpdateOutcome::Failure("Failed to update repository".to_owned())
        } else {
            UpdateOutcome::Failure(self.last_err.clone())
        }
    }
}

/// One line received on the merged channel, tagged with its origin stream.
pub struct OutputEvent {
    /// True when the line came from the error stream.
    pub from_err: bool,
    /// The reconstructed line text.
    pub text: String,
}

impl View for OutputEvent {
    type V = (bool, Seq<char>);

    open spec fn view(&self) -> (bool, Seq<char>) {
        (self.from_err, self.text@)
    }
}

/// The event sequence a vector of events stands for.
pub open spec fn events_view(events: Seq<OutputEvent>) -> Seq<(bool, Seq<char>)> {
    events.map_values(|e: OutputEvent| e@)
}

/// All status reports that a merged event sequence produces, in order.
pub open spec fn reports_of(events: Seq<(bool, Seq<char>)>) -> Seq<Seq<char>>
    decreases events.len(),
{
    if events.len() == 0 {
        Seq::<Seq<char>>::empty()
    } else {
        reports_of(events.drop_last()) + match report_of(events.last().1) {
            Some(r) => seq![r],
            None => Seq::<Seq<char>>::empty(),
        }
    }
}

/// The last error-stream line of a merged event sequence (empty if none).
pub open spec fn last_error_of(events: Seq<(bool, Seq<char>)>) -> Seq<char>
    decreases events.len(),
{
    if events.len() == 0 {
        Seq::<char>::empty()
    } else if events.last().0 {
        events.last().1
    } else {
        last_error_of(events.drop_last())
    }
}

/// Consumes a whole merged event sequence, as the update runner's receive
/// loop does once the channel has closed: every event is classified exactly
/// once, in arrival order, and the outcome is decided from the exit status
/// together with the last error line.
#[verifier::loop_isolation(false)]
pub fn run_update(events: &Vec<OutputEvent>, exit_ok: bool) -> (r: (Vec<String>, UpdateOutcome))
    ensures
        r.0.deep_view() == reports_of(events_view(events@)),
        match r.1 {
            UpdateOutcome::Success => exit_ok,
            UpdateOutcome::Failure(m) => !exit_ok && m@ == (if last_error_of(
                events_view(events@),
            ).len() == 0 {
                "Failed to update repository"@
            } else {
                last_error_of(events_view(events@))
            }),
        },
{
    let mut monitor = UpdateMonitor::new();
    let mut reports: Vec<String> = Vec::new();
    let mut i: usize = 0;
    while i < events.len()
        invariant
            i <= events@.len(),
            reports.deep_view() == reports_of(events_view(events@.take(i as int))),
            monitor.last_error() == last_error_of(events_view(events@.take(i as int))),
        decreases events@.len() - i,
    {
        let e = &events[i];
        let report = monitor.process_line(e.from_err, e.text.as_str());
        if let Some(rep) = report {
            reports.push(rep);
        }
        i = i + 1;
        proof {
            assert(events_view(events@.take(i as int)).drop_last() =~= events_view(
                events@.take(i - 1),
            ));
            assert(events_view(events@.take(i as int)).last() == events@[i - 1]@);
            assert(reports.deep_view() =~= reports_of(events_view(events@.take(i as int))));
        }
    }
    proof {
        assert(events@.take(events@.len() as int) =~= events@);
    }
    let outcome = monitor.conclude(exit_ok);
    (reports, outcome)
}

/// `m` is one of the ways the two sequences `a` and `b` can arrive
/// interleaved on a shared channel: each keeps its internal order, and
/// nothing else appears.
pub open spec fn is_interleaving<T>(m: Seq<T>, a: Seq<T>, b: Seq<T>) -> bool
    decreases m.len(),
{
    if a.len() == 0 && b.len() == 0 {
        m.len() == 0
    } else if m.len() == 0 {
        false
    } else {
        ||| (a.len() > 0 && m[0] == a[0] && is_interleaving(m.drop_first(), a.drop_first(), b))
        ||| (b.len() > 0 && m[0] == b[0] && is_interleaving(m.drop_first(), a, b.drop_first()))
    }
}

/// Merge completeness, counted: an interleaving carries exactly the lines
/// of both streams, so a loop that consumes it until the channel closes
/// observes every line of both, each exactly once.
pub proof fn lemma_interleaving_length<T>(m: Seq<T>, a: Seq<T>, b: Seq<T>)
    requires
        is_interleaving(m, a, b),
    ensures
        m.len() == a.len() + b.len(),
    decreases m.len(),
{
    if a.len() == 0 && b.len() == 0 {
    } else if a.len() > 0 && m[0] == a[0] && is_interleaving(m.drop_first(), a.drop_first(), b) {
        lemma_interleaving_length(m.drop_first(), a.drop_first(), b);
    } else {
        lemma_interleaving_length(m.drop_first(), a, b.drop_first());
    }
}

/// The events of one origin, in arrival order.
pub open spec fn origin_events(m: Seq<(bool, Seq<char>)>, err: bool) -> Seq<(bool, Seq<char>)>
    decreases m.len(),
{
    if m.len() == 0 {
        Seq::<(bool, Seq<char>)>::empty()
    } else if m[0].0 == err {
        seq![m[0]] + origin_events(m.drop_first(), err)
    } else {
        origin_events(m.drop_first(), err)
    }
}

/// Merge completeness, per stream: when the error stream contributes `a`
/// and the output stream contributes `b`, any interleaving of the two
/// carries exactly `a` as its error-tagged events and exactly `b` as its
/// output-tagged events, each in source order.
pub proof fn lemma_interleaving_splits(
    m: Seq<(bool, Seq<char>)>,
    a: Seq<(bool, Seq<char>)>,
    b: Seq<(bool, Seq<char>)>,
)
    requires
        is_interleaving(m, a, b),
        forall|i: int| 0 <= i < a.len() ==> (#[trigger] a[i]).0 == true,
        forall|i: int| 0 <= i < b.len() ==> (#[trigger] b[i]).0 == false,
    ensures
        origin_events(m, true) == a,
        origin_events(m, false) == b,
    decreases m.len(),
{
    if a.len() == 0 && b.len() == 0 {
        assert(origin_events(m, true) =~= a);
        assert(origin_events(m, false) =~= b);
    } else if a.len() > 0 && m[0] == a[0] && is_interleaving(m.drop_first(), a.drop_first(), b) {
        lemma_interleaving_splits(m.drop_first(), a.drop_first(), b);
        assert(a[0].0 == true);
        assert(origin_events(m, true) =~= seq![a[0]] + a.drop_first());
        assert(seq![a[0]] + a.drop_first() =~= a);
    } else {
        lemma_interleaving_splits(m.drop_first(), a, b.drop_first());
        assert(b[0].0 == false);
        assert(origin_events(m, false) =~= seq![b[0]] + b.drop_first());
        assert(seq![b[0]] + b.drop_first() =~= b);
    }
}

} // verus!
