//! Check reports: what `velosctl doctor` and `veloslet status` print, and the raw
//! answers of the probes behind them.
use vstd::prelude::*;

use crate::json;
use crate::json::{Json, JsonView};
use crate::text;

verus! {

/// The verdict of a single check.
#[derive(Debug, Clone, Copy, PartialEq, Eq, Structural)]
pub enum Status {
    /// Working.
    Pass,
    /// Working, but something is worth knowing about.
    Warn,
    /// Broken: this is why it isn't usable.
    Fail,
    /// Not checked, because an earlier check made it meaningless.
    Skip,
}

/// The glyph the report leads a line with.
pub open spec fn glyph_of(s: Status) -> Seq<char> {
    match s {
        Status::Pass => "✔"@,
        Status::Warn => "!"@,
        Status::Fail => "✗"@,
        Status::Skip => "-"@,
    }
}

impl Status {
    /// The glyph the report leads each line with.
    fn glyph(self) -> (r: &'static str)
        ensures
            r@ == glyph_of(self),
    {
        match self {
            Status::Pass => "✔",
            Status::Warn => "!",
            Status::Fail => "✗",
            Status::Skip => "-",
        }
    }
}

/// One checked thing: what it is, how it went, and how to fix it.
#[derive(Debug, PartialEq, Eq)]
pub struct Check {
    pub name: &'static str,
    pub status: Status,
    pub detail: String,
    pub hint: Option<String>,
}

/// What a [`Check`] stands for.
#[verifier::ext_equal]
pub struct CheckView {
    pub name: Seq<char>,
    pub status: Status,
    pub detail: Seq<char>,
    pub hint: Option<Seq<char>>,
}

impl View for Check {
    type V = CheckView;

    open spec fn view(&self) -> CheckView {
        CheckView {
            name: self.name@,
            status: self.status,
            detail: self.detail@,
            hint: self.hint.deep_view(),
        }
    }
}

impl DeepView for Check {
    type V = CheckView;

    open spec fn deep_view(&self) -> CheckView {
        self@
    }
}

impl Clone for Check {
    fn clone(&self) -> (r: Check)
        ensures
            r == *self,
    {
        Check {
            name: self.name,
            status: self.status,
            detail: self.detail.clone(),
            hint: match &self.hint {
                Some(h) => Some(h.clone()),
                None => None,
            },
        }
    }
}

/// A check that passed.
pub open spec fn passed(name: Seq<char>, detail: Seq<char>) -> CheckView {
    CheckView { name, status: Status::Pass, detail, hint: None }
}

/// A check that was not made.
pub open spec fn skipped(name: Seq<char>, why: Seq<char>) -> CheckView {
    CheckView { name, status: Status::Skip, detail: why, hint: None }
}

/// A check that calls for attention.
pub open spec fn warned(name: Seq<char>, detail: Seq<char>, hint: Seq<char>) -> CheckView {
    CheckView { name, status: Status::Warn, detail, hint: Some(hint) }
}

/// A check that failed.
pub open spec fn failed(name: Seq<char>, detail: Seq<char>, hint: Seq<char>) -> CheckView {
    CheckView { name, status: Status::Fail, detail, hint: Some(hint) }
}

impl Check {
    /// A check that passed.
    pub fn pass(name: &'static str, detail: &str) -> (r: Check)
        ensures
            r@ == passed(name@, detail@),
    {
        Check { name, status: Status::Pass, detail: detail.to_owned(), hint: None }
    }

    /// A check that was not made.
    pub fn skip(name: &'static str, why: &str) -> (r: Check)
        ensures
            r@ == skipped(name@, why@),
    {
        Check { name, status: Status::Skip, detail: why.to_owned(), hint: None }
    }

    /// A check that calls for attention.
    pub fn warn(name: &'static str, detail: &str, hint: &str) -> (r: Check)
        ensures
            r@ == warned(name@, detail@, hint@),
    {
        Check { name, status: Status::Warn, detail: detail.to_owned(), hint: Some(hint.to_owned()) }
    }

    /// A check that failed.
    pub fn fail(name: &'static str, detail: &str, hint: &str) -> (r: Check)
        ensures
            r@ == failed(name@, detail@, hint@),
    {
        Check { name, status: Status::Fail, detail: detail.to_owned(), hint: Some(hint.to_owned()) }
    }
}

/// Every check, in the order they were run.
#[derive(Debug, Clone, PartialEq, Eq)]
pub struct Report {
    pub checks: Vec<Check>,
}

/// Whether one of the checks failed.
pub open spec fn any_failed(checks: Seq<CheckView>) -> bool {
    exists|i: int| 0 <= i < checks.len() && (#[trigger] checks[i]).status == Status::Fail
}

/// How many checks have that verdict.
pub open spec fn count(checks: Seq<CheckView>, status: Status) -> nat
    decreases checks.len(),
{
    if checks.len() == 0 {
        0
    } else {
        count(checks.drop_last(), status) + if checks.last().status == status {
            1nat
        } else {
            0nat
        }
    }
}

/// The length of the longest name, in bytes.
pub open spec fn name_width(checks: Seq<CheckView>) -> nat
    decreases checks.len(),
{
    if checks.len() == 0 {
        0
    } else {
        let before = name_width(checks.drop_last());
        let here = vstd::utf8::encode_utf8(checks.last().name).len();
        if here > before {
            here
        } else {
            before
        }
    }
}

/// The lines of one check: glyph, name and detail, and below it the hint, if it has one.
pub open spec fn check_lines(c: CheckView, width: nat) -> Seq<char> {
    let line = "  "@ + glyph_of(c.status) + " "@ + text::space_padded(c.name, width) + (
    "  "@ + c.detail + "\n"@);
    match c.hint {
        Some(hint) => line + ("    "@ + text::space_padded(""@, width) + "    → "@ + hint
            + "\n"@),
        None => line,
    }
}

/// The lines of all checks, in order.
pub open spec fn body(checks: Seq<CheckView>, width: nat) -> Seq<char>
    decreases checks.len(),
{
    if checks.len() == 0 {
        Seq::empty()
    } else {
        body(checks.drop_last(), width) + check_lines(checks.last(), width)
    }
}

/// `1 warning`, `2 warnings`.
pub open spec fn counted(n: nat, noun: Seq<char>) -> Seq<char> {
    if n == 1 {
        text::decimal(n) + " "@ + noun
    } else {
        text::decimal(n) + " "@ + noun + "s"@
    }
}

/// The line that sums a report up.
pub open spec fn summary(failures: nat, warnings: nat) -> Seq<char> {
    if failures == 0 && warnings == 0 {
        "\nall checks passed\n"@
    } else if failures == 0 {
        "\n"@ + counted(warnings, "warning"@) + ", nothing broken\n"@
    } else if warnings == 0 {
        "\n"@ + text::decimal(failures) + " failed — see the hints above\n"@
    } else {
        "\n"@ + text::decimal(failures) + " failed, "@ + counted(warnings, "warning"@)
            + " — see the hints above\n"@
    }
}

/// A report as it is printed.
pub open spec fn rendered(checks: Seq<CheckView>) -> Seq<char> {
    body(checks, name_width(checks)) + summary(
        count(checks, Status::Fail),
        count(checks, Status::Warn),
    )
}

/// `1 warning` / `2 warnings`.
pub fn plural(n: usize, noun: &str) -> (r: String)
    ensures
        r@ == counted(n as nat, noun@),
{
    let number = text::decimal_text(n as u64);
    if n == 1 {
        text::cat3(&number, " ", noun)
    } else {
        text::cat4(&number, " ", noun, "s")
    }
}

impl Check {
    /// The lines of this check, its name padded to `width`.
    fn lines(&self, width: usize) -> (r: String)
        ensures
            r@ == check_lines(self@, width as nat),
    {
        let tail = text::cat3("  ", &self.detail, "\n");
        let line = text::cat5(
            "  ",
            self.status.glyph(),
            " ",
            &text::pad_spaces(self.name, width),
            &tail,
        );
        match &self.hint {
            Some(hint) => {
                let below = text::cat5(
                    "    ",
                    &text::pad_spaces("", width),
                    "    → ",
                    hint,
                    "\n",
                );
                text::cat2(&line, &below)
            },
            None => line,
        }
    }
}

impl Report {
    /// True when something is actually broken. Warnings do not count: they are
    /// notes about a setup that still works.
    pub fn has_failures(&self) -> (r: bool)
        ensures
            r == any_failed(self.checks.deep_view()),
    {
        let ghost all = self.checks.deep_view();
        for i in 0..self.checks.len()
            invariant
                all == self.checks.deep_view(),
                forall|k: int| 0 <= k < i ==> (#[trigger] all[k]).status != Status::Fail,
        {
            if self.checks[i].status == Status::Fail {
                assert(all[i as int].status == Status::Fail);
                return true;
            }
        }
        false
    }

    fn count(&self, status: Status) -> (r: usize)
        ensures
            r == count(self.checks.deep_view(), status),
    {
        let ghost all = self.checks.deep_view();
        let mut n: usize = 0;
        for i in 0..self.checks.len()
            invariant
                all == self.checks.deep_view(),
                n <= i,
                n == count(all.take(i as int), status),
        {
            assert(all.take(i + 1).drop_last() =~= all.take(i as int));
            if self.checks[i].status == status {
                n += 1;
            }
        }
        assert(all.take(all.len() as int) =~= all);
        n
    }

    fn width(&self) -> (r: usize)
        ensures
            r == name_width(self.checks.deep_view()),
    {
        let ghost all = self.checks.deep_view();
        let mut width: usize = 0;
        for i in 0..self.checks.len()
            invariant
                all == self.checks.deep_view(),
                width == name_width(all.take(i as int)),
        {
            assert(all.take(i + 1).drop_last() =~= all.take(i as int));
            let here: usize = self.checks[i].name.as_bytes().len();
            if here > width {
                width = here;
            }
        }
        assert(all.take(all.len() as int) =~= all);
        width
    }

    /// The report as it is printed: a line for each check, skips included, a hint below
    /// each line that has one, and a summary.
    pub fn render(&self) -> (r: String)
        ensures
            r@ == rendered(self.checks.deep_view()),
    {
        let ghost all = self.checks.deep_view();
        let width: usize = self.width();
        let mut out = String::new();
        for i in 0..self.checks.len()
            invariant
                all == self.checks.deep_view(),
                out@ == body(all.take(i as int), width as nat),
        {
            assert(all.take(i + 1).drop_last() =~= all.take(i as int));
            out.append(&self.checks[i].lines(width));
        }
        assert(all.take(all.len() as int) =~= all);
        let failures: usize = self.count(Status::Fail);
        let warnings: usize = self.count(Status::Warn);
        let last = if failures == 0 && warnings == 0 {
            "\nall checks passed\n".to_owned()
        } else if failures == 0 {
            text::cat3("\n", &plural(warnings, "warning"), ", nothing broken\n")
        } else if warnings == 0 {
            text::cat3(
                "\n",
                &text::decimal_text(failures as u64),
                " failed — see the hints above\n",
            )
        } else {
            text::cat5(
                "\n",
                &text::decimal_text(failures as u64),
                " failed, ",
                &plural(warnings, "warning"),
                " — see the hints above\n",
            )
        };
        out.append(&last);
        out
    }
}

// ---------------------------------------------------------------------------
// Raw answers of the probes
// ---------------------------------------------------------------------------

/// What a request came back with.
#[derive(Debug, PartialEq, Eq)]
pub enum HttpReply {
    /// No answer at all, for this innermost reason.
    Failed(String),
    /// An answer: whether its status is a success, the status as a number and as text
    /// (`404 Not Found`), and the body.
    Answered { success: bool, code: u16, status: String, body: Body },
}

/// The body of an answer.
#[derive(Debug, PartialEq, Eq)]
pub enum Body {
    /// Read as JSON, together with its compact text.
    Read { json: Json, text: String },
    /// Not readable as JSON, for this innermost reason.
    Unreadable(String),
}

/// Whether a body is what its bytes read as.
pub open spec fn body_of(bytes: Seq<u8>, body: Body) -> bool {
    match (json::parsed_bytes(bytes), body) {
        (Ok(doc), Body::Read { json, text }) => json@ == doc && text@ == json::rendered(doc),
        (Err(cause), Body::Unreadable(why)) => why@ == cause,
        _ => false,
    }
}

/// Reads the bytes of a body as JSON.
pub fn read_body(bytes: &[u8]) -> (r: Body)
    ensures
        body_of(bytes@, r),
{
    match json::parse_bytes(bytes) {
        Ok((json, text)) => Body::Read { json, text },
        Err(cause) => Body::Unreadable(cause),
    }
}

/// What reading a config file came back with.
#[derive(Debug, PartialEq, Eq)]
pub enum FileRead<T> {
    /// There is no such file.
    NotFound,
    /// It could not be read, or not be parsed, for this reason.
    Unusable(String),
    /// It was read and parsed. `mode` is the unix permission bits, where known.
    Parsed { value: T, mode: Option<u32> },
}

/// What calling a program came back with.
#[derive(Debug, PartialEq, Eq)]
pub enum CallResult {
    /// There is no such program.
    NotFound,
    /// It could not be called, for this reason.
    Failed(String),
    /// It ran: whether it succeeded, its exit status as text, and what it printed.
    Exited { success: bool, status: String, stdout: String, stderr: String },
}

/// The URL of a path on a server, whether the server's URL ends in slashes or not.
pub open spec fn url_of(server: Seq<char>, path: Seq<char>) -> Seq<char> {
    text::trimmed_end(server, '/') + path
}

/// The URL of a path on a server.
pub fn url(server: &str, path: &str) -> (r: String)
    ensures
        r@ == url_of(server@, path@),
{
    text::cat2(&text::trim_end(server, '/'), path)
}

/// Whether a request failed because this build cannot speak TLS: without a TLS backend an
/// https URL is rejected up front as "not http".
pub open spec fn lacks_tls(server: Seq<char>, cause: Seq<char>) -> bool {
    text::starts_with(server, "https://"@) && text::contains(cause, "scheme is not http"@)
}

/// Whether a request failed because this build cannot speak TLS.
pub fn is_tls_missing(server: &str, cause: &str) -> (r: bool)
    ensures
        r == lacks_tls(server@, cause@),
{
    text::has_prefix(server, "https://") && text::has(cause, "scheme is not http")
}

/// Who a credential belongs to.
#[derive(Debug, PartialEq, Eq)]
pub enum Who {
    Admin,
    Worker(String),
}

/// What a [`Who`] stands for.
#[verifier::ext_equal]
pub enum WhoView {
    Admin,
    Worker(Seq<char>),
}

impl View for Who {
    type V = WhoView;

    open spec fn view(&self) -> WhoView {
        match self {
            Who::Admin => WhoView::Admin,
            Who::Worker(name) => WhoView::Worker(name@),
        }
    }
}

/// The identity in `{"identity": "admin"}` or `{"identity": {"worker": name}}`.
pub open spec fn identity_in(body: JsonView) -> Option<WhoView> {
    match json::get(body, "identity"@) {
        Some(identity) => if identity == JsonView::Text("admin"@) {
            Some(WhoView::Admin)
        } else {
            match json::text(json::get(identity, "worker"@)) {
                Some(name) => Some(WhoView::Worker(name)),
                None => None,
            }
        },
        None => None,
    }
}

/// Read the identity out of `{"identity": "admin"}` / `{"identity": {"worker": n}}`.
pub fn read_identity(body: &Json) -> (r: Option<Who>)
    ensures
        match r {
            Some(w) => identity_in(body@) == Some(w@),
            None => identity_in(body@) is None,
        },
{
    let identity = match body.get("identity") {
        Some(j) => j,
        None => {
            return None;
        },
    };
    if let Some(s) = identity.as_str() {
        if text::same(s, "admin") {
            return Some(Who::Admin);
        }
    }
    match identity.get("worker") {
        Some(j) => match j.as_str() {
            Some(name) => Some(Who::Worker(name.to_owned())),
            None => None,
        },
        None => None,
    }
}

/// The first line of an output, without the white space around it.
pub open spec fn first_line(output: Seq<char>) -> Seq<char> {
    text::trimmed(text::lines_of(output)[0])
}

/// The first line of an output, without the white space around it.
pub fn trimmed_first_line(output: &str) -> (r: String)
    ensures
        r@ == first_line(output@),
{
    let lines = text::lines(output);
    assert(lines.deep_view()[0] == lines@[0]@);
    text::trim(&lines[0])
}

// ---------------------------------------------------------------------------
// What holds of every report
// ---------------------------------------------------------------------------

/// Slashes at the end of a server's URL do not matter.
pub proof fn law_trailing_slashes_do_not_matter(server: Seq<char>, path: Seq<char>)
    ensures
        url_of(server.push('/'), path) == url_of(server, path),
        text::trimmed_end(server, '/').len() > 0 ==> text::trimmed_end(server, '/').last() != '/',
    decreases server.len(),
{
    assert(server.push('/').drop_last() =~= server);
    if server.len() > 0 && server.last() == '/' {
        law_trailing_slashes_do_not_matter(server.drop_last(), path);
    }
}

proof fn lemma_count_positive(checks: Seq<CheckView>, status: Status)
    ensures
        count(checks, status) > 0 <==> exists|i: int|
            0 <= i < checks.len() && (#[trigger] checks[i]).status == status,
    decreases checks.len(),
{
    if checks.len() > 0 {
        let init = checks.drop_last();
        lemma_count_positive(init, status);
        if checks.last().status == status {
            assert(checks[checks.len() - 1].status == status);
        } else if count(init, status) > 0 {
            let i = choose|i: int| 0 <= i < init.len() && (#[trigger] init[i]).status == status;
            assert(checks[i].status == status);
        } else if exists|i: int|
            0 <= i < checks.len() && (#[trigger] checks[i]).status == status {
            let i = choose|i: int| 0 <= i < checks.len() && (#[trigger] checks[i]).status == status;
            assert(init[i].status == status);
        }
    }
}

/// A report fails exactly where a check failed: warnings and skips never make it fail.
pub proof fn law_only_failures_fail(checks: Seq<CheckView>)
    ensures
        any_failed(checks) <==> count(checks, Status::Fail) > 0,
        (forall|i: int| 0 <= i < checks.len() ==> (#[trigger] checks[i]).status != Status::Fail)
            ==> !any_failed(checks),
{
    lemma_count_positive(checks, Status::Fail);
}

proof fn lemma_contains_in_sum(a: Seq<char>, b: Seq<char>, needle: Seq<char>)
    ensures
        text::contains(a, needle) ==> text::contains(a + b, needle),
        text::contains(b, needle) ==> text::contains(a + b, needle),
{
    if text::contains(a, needle) {
        let i = choose|i: int| text::occurs_at(a, needle, i);
        assert((a + b).subrange(i, i + needle.len()) =~= a.subrange(i, i + needle.len()));
        assert(text::occurs_at(a + b, needle, i));
    }
    if text::contains(b, needle) {
        let i = choose|i: int| text::occurs_at(b, needle, i);
        let j = a.len() + i;
        assert((a + b).subrange(j, j + needle.len()) =~= b.subrange(i, i + needle.len()));
        assert(text::occurs_at(a + b, needle, j));
    }
}

proof fn lemma_contains_itself(s: Seq<char>)
    ensures
        text::contains(s, s),
{
    assert(s.subrange(0, s.len() as int) =~= s);
    assert(text::occurs_at(s, s, 0));
}

proof fn lemma_check_is_shown(c: CheckView, width: nat)
    ensures
        text::contains(check_lines(c, width), c.name),
        text::contains(check_lines(c, width), c.detail),
        c.hint matches Some(h) ==> text::contains(check_lines(c, width), h),
{
    let padded = text::space_padded(c.name, width);
    lemma_contains_itself(c.name);
    if c.name.len() < width {
        lemma_contains_in_sum(
            c.name,
            Seq::new((width - c.name.len()) as nat, |i: int| ' '),
            c.name,
        );
    }
    assert(text::contains(padded, c.name));
    let lead = "  "@ + glyph_of(c.status) + " "@;
    let tail = "  "@ + c.detail + "\n"@;
    lemma_contains_in_sum(lead, padded, c.name);
    lemma_contains_in_sum(lead + padded, tail, c.name);
    lemma_contains_itself(c.detail);
    lemma_contains_in_sum("  "@, c.detail, c.detail);
    lemma_contains_in_sum("  "@ + c.detail, "\n"@, c.detail);
    lemma_contains_in_sum(lead + padded, tail, c.detail);
    let line = lead + padded + tail;
    if let Some(h) = c.hint {
        let front = "    "@ + text::space_padded(""@, width) + "    → "@;
        lemma_contains_itself(h);
        lemma_contains_in_sum(front, h, h);
        lemma_contains_in_sum(front + h, "\n"@, h);
        let below = front + h + "\n"@;
        lemma_contains_in_sum(line, below, h);
        lemma_contains_in_sum(line, below, c.name);
        lemma_contains_in_sum(line, below, c.detail);
    }
}

/// Every check is in the printed report, with its detail and its hint, skipped ones too: a
/// silently dropped check would read as a clean bill of health.
pub proof fn law_every_check_is_printed(checks: Seq<CheckView>, i: int)
    requires
        0 <= i < checks.len(),
    ensures
        text::contains(rendered(checks), checks[i].name),
        text::contains(rendered(checks), checks[i].detail),
        checks[i].hint matches Some(h) ==> text::contains(rendered(checks), h),
{
    let width = name_width(checks);
    lemma_body_shows(checks, width, i);
    let last = summary(count(checks, Status::Fail), count(checks, Status::Warn));
    lemma_contains_in_sum(body(checks, width), last, checks[i].name);
    lemma_contains_in_sum(body(checks, width), last, checks[i].detail);
    if let Some(h) = checks[i].hint {
        lemma_contains_in_sum(body(checks, width), last, h);
    }
}

proof fn lemma_body_shows(checks: Seq<CheckView>, width: nat, i: int)
    requires
        0 <= i < checks.len(),
    ensures
        text::contains(body(checks, width), checks[i].name),
        text::contains(body(checks, width), checks[i].detail),
        checks[i].hint matches Some(h) ==> text::contains(body(checks, width), h),
    decreases checks.len(),
{
    let init = checks.drop_last();
    let before = body(init, width);
    let lines = check_lines(checks.last(), width);
    if i == checks.len() - 1 {
        lemma_check_is_shown(checks.last(), width);
    } else {
        lemma_body_shows(init, width, i);
        assert(init[i] == checks[i]);
    }
    lemma_contains_in_sum(before, lines, checks[i].name);
    lemma_contains_in_sum(before, lines, checks[i].detail);
    if let Some(h) = checks[i].hint {
        lemma_contains_in_sum(before, lines, h);
    }
}

/// A verdict is counted once for each check that has it, and every check has one of the four.
pub proof fn law_counts_are_of_the_verdict(a: Seq<CheckView>, b: Seq<CheckView>, status: Status)
    ensures
        count(a, status) == a.filter(|c: CheckView| c.status == status).len(),
        count(a + b, status) == count(a, status) + count(b, status),
        count(a, status) == a.len() <==> forall|i: int|
            0 <= i < a.len() ==> (#[trigger] a[i]).status == status,
        a.len() == count(a, Status::Pass) + count(a, Status::Warn) + count(a, Status::Fail)
            + count(a, Status::Skip),
{
    lemma_count_filtered(a, status);
    lemma_count_sum(a, b, status);
    lemma_count_full(a, status);
    lemma_counts_add_up(a);
}

proof fn lemma_count_filtered(a: Seq<CheckView>, status: Status)
    ensures
        count(a, status) == a.filter(|c: CheckView| c.status == status).len(),
    decreases a.len(),
{
    reveal(Seq::filter);
    if a.len() > 0 {
        lemma_count_filtered(a.drop_last(), status);
    }
}

proof fn lemma_count_sum(a: Seq<CheckView>, b: Seq<CheckView>, status: Status)
    ensures
        count(a + b, status) == count(a, status) + count(b, status),
    decreases b.len(),
{
    if b.len() == 0 {
        assert(a + b =~= a);
    } else {
        lemma_count_sum(a, b.drop_last(), status);
        assert((a + b).drop_last() =~= a + b.drop_last());
        assert((a + b).last() == b.last());
    }
}

proof fn lemma_count_full(a: Seq<CheckView>, status: Status)
    ensures
        count(a, status) <= a.len(),
        count(a, status) == a.len() <==> forall|i: int|
            0 <= i < a.len() ==> (#[trigger] a[i]).status == status,
    decreases a.len(),
{
    if a.len() > 0 {
        let init = a.drop_last();
        lemma_count_full(init, status);
        if count(a, status) == a.len() {
            assert forall|i: int| 0 <= i < a.len() implies (#[trigger] a[i]).status == status by {
                if i < init.len() {
                    assert(init[i].status == status);
                }
            }
        }
        if forall|i: int| 0 <= i < a.len() ==> (#[trigger] a[i]).status == status {
            assert forall|i: int| 0 <= i < init.len() implies (#[trigger] init[i]).status
                == status by {
                assert(a[i].status == status);
            }
            assert(a[a.len() - 1].status == status);
        }
    }
}

proof fn lemma_counts_add_up(a: Seq<CheckView>)
    ensures
        a.len() == count(a, Status::Pass) + count(a, Status::Warn) + count(a, Status::Fail)
            + count(a, Status::Skip),
    decreases a.len(),
{
    if a.len() > 0 {
        lemma_counts_add_up(a.drop_last());
    }
}

/// The column of names is as wide as the longest name: no name is longer, and one is as long.
pub proof fn law_width_is_that_of_the_longest_name(checks: Seq<CheckView>, i: int)
    ensures
        0 <= i < checks.len() ==> vstd::utf8::encode_utf8(checks[i].name).len() <= name_width(
            checks,
        ),
        checks.len() > 0 ==> exists|k: int|
            0 <= k < checks.len() && vstd::utf8::encode_utf8((#[trigger] checks[k]).name).len()
                == name_width(checks),
        checks.len() == 0 ==> name_width(checks) == 0,
    decreases checks.len(),
{
    if checks.len() > 0 {
        let init = checks.drop_last();
        law_width_is_that_of_the_longest_name(init, i);
        if 0 <= i < init.len() {
            assert(init[i] == checks[i]);
        }
        let here = vstd::utf8::encode_utf8(checks.last().name).len();
        if here >= name_width(init) {
            assert(vstd::utf8::encode_utf8(checks[checks.len() - 1].name).len() == name_width(
                checks,
            ));
        } else {
            let k = choose|k: int|
                0 <= k < init.len() && vstd::utf8::encode_utf8((#[trigger] init[k]).name).len()
                    == name_width(init);
            assert(init[k] == checks[k]);
        }
    }
}

/// The lines of the checks come in the order of the checks.
pub proof fn law_lines_follow_the_checks(
    a: Seq<CheckView>,
    b: Seq<CheckView>,
    c: CheckView,
    width: nat,
)
    ensures
        body(a + b, width) == body(a, width) + body(b, width),
        body(seq![c], width) == check_lines(c, width),
    decreases b.len(),
{
    reveal_with_fuel(body, 2);
    assert(seq![c].drop_last() =~= Seq::<CheckView>::empty());
    assert(body(seq![c], width) =~= check_lines(c, width));
    if b.len() == 0 {
        assert(a + b =~= a);
    } else {
        law_lines_follow_the_checks(a, b.drop_last(), c, width);
        assert((a + b).drop_last() =~= a + b.drop_last());
        assert((a + b).last() == b.last());
    }
    assert(body(a + b, width) =~= body(a, width) + body(b, width));
}

/// The four verdicts lead their lines with four different glyphs of one character.
pub proof fn law_verdicts_look_different(a: Status, b: Status)
    ensures
        glyph_of(a).len() == 1,
        glyph_of(a) == glyph_of(b) ==> a == b,
{
    reveal_strlit("✔");
    reveal_strlit("!");
    reveal_strlit("✗");
    reveal_strlit("-");
    assert("✔"@[0] == '✔' && "!"@[0] == '!' && "✗"@[0] == '✗' && "-"@[0] == '-');
}

/// A check's line leads with the glyph and the name, and its detail starts in the same column
/// whatever the name, as long as the name fits; the hint ends a line of its own.
pub proof fn law_details_line_up(c: CheckView, width: nat)
    requires
        c.name.len() <= width,
    ensures
        text::starts_with(check_lines(c, width), "  "@ + glyph_of(c.status) + " "@ + c.name),
        text::starts_with(check_lines(c, width).skip(width + 6int), c.detail + "\n"@),
        c.hint is None ==> check_lines(c, width).len() == 7 + width + c.detail.len(),
        c.hint matches Some(h) ==> text::ends_with(check_lines(c, width), h + "\n"@),
{
    reveal_strlit("  ");
    reveal_strlit(" ");
    reveal_strlit("\n");
    law_verdicts_look_different(c.status, c.status);
    text::law_padding_fills_up(c.name, width, 0);
    let lead = "  "@ + glyph_of(c.status) + " "@;
    let padded = text::space_padded(c.name, width);
    let line = lead + padded + ("  "@ + c.detail + "\n"@);
    let all = check_lines(c, width);
    assert(padded.len() == width);
    assert(padded.take(c.name.len() as int) == c.name);
    assert(all.take(line.len() as int) =~= line);
    let shown = lead + c.name;
    assert(padded =~= c.name + padded.skip(c.name.len() as int));
    assert(line =~= shown + (padded.skip(c.name.len() as int) + ("  "@ + c.detail + "\n"@)));
    let after = all.skip(line.len() as int);
    assert(all =~= line + after);
    assert(all =~= shown + (padded.skip(c.name.len() as int) + ("  "@ + c.detail + "\n"@)
        + after));
    text::law_parts_of_a_string(
        Seq::empty(),
        shown,
        padded.skip(c.name.len() as int) + ("  "@ + c.detail + "\n"@) + after,
    );
    assert(all.skip(width + 6int) =~= c.detail + "\n"@ + after);
    text::law_parts_of_a_string(Seq::empty(), c.detail + "\n"@, after);
    if let Some(h) = c.hint {
        let front = "    "@ + text::space_padded(""@, width) + "    → "@;
        assert(all =~= line + front + (h + "\n"@));
        text::law_parts_of_a_string(line + front, h + "\n"@, Seq::empty());
    }
}

/// The summary says that all is well exactly where nothing failed and nothing warned, and else
/// how many checks failed and how many warned.
pub proof fn law_summary_tells_the_counts(failures: nat, warnings: nat)
    ensures
        summary(failures, warnings) == "\nall checks passed\n"@ <==> failures == 0 && warnings == 0,
        failures > 0 ==> text::contains(
            summary(failures, warnings),
            text::decimal(failures) + " failed"@,
        ),
        warnings > 0 ==> text::contains(
            summary(failures, warnings),
            text::decimal(warnings) + " warning"@,
        ),
        warnings > 0 && failures == 0 ==> text::ends_with(
            summary(failures, warnings),
            ", nothing broken\n"@,
        ),
        failures > 0 ==> text::ends_with(
            summary(failures, warnings),
            " — see the hints above\n"@,
        ),
{
    reveal_strlit("\nall checks passed\n");
    reveal_strlit("\n");
    reveal_strlit(" failed");
    reveal_strlit(" failed, ");
    reveal_strlit(" failed — see the hints above\n");
    reveal_strlit(" — see the hints above\n");
    reveal_strlit(" warning");
    reveal_strlit("warning");
    reveal_strlit(" ");
    reveal_strlit("s");
    text::law_numerals_denote_their_number(failures);
    text::law_numerals_denote_their_number(warnings);
    let s = summary(failures, warnings);
    let f = text::decimal(failures);
    let w = text::decimal(warnings);
    let counted_w = counted(warnings, "warning"@);
    let plural_end = if warnings == 1 {
        Seq::<char>::empty()
    } else {
        "s"@
    };
    assert(" warning"@ =~= " "@ + "warning"@);
    assert(counted_w =~= w + " warning"@ + plural_end);
    if failures > 0 {
        assert(" failed, "@ =~= " failed"@ + seq![',', ' ']);
        assert(" failed — see the hints above\n"@ =~= " failed"@ + " — see the hints above\n"@);
        assert(s[1] == f[0]);
        assert('0' <= f[0] <= '9');
        if warnings == 0 {
            assert(s =~= "\n"@ + (f + " failed"@) + " — see the hints above\n"@);
            text::law_parts_of_a_string("\n"@, f + " failed"@, " — see the hints above\n"@);
            text::law_parts_of_a_string(
                "\n"@ + (f + " failed"@),
                " — see the hints above\n"@,
                Seq::empty(),
            );
        } else {
            let rest = seq![',', ' '] + counted_w + " — see the hints above\n"@;
            assert(s =~= "\n"@ + (f + " failed"@) + rest);
            text::law_parts_of_a_string("\n"@, f + " failed"@, rest);
            let lead = "\n"@ + f + " failed, "@;
            assert(s =~= lead + (w + " warning"@) + (plural_end + " — see the hints above\n"@));
            text::law_parts_of_a_string(
                lead,
                w + " warning"@,
                plural_end + " — see the hints above\n"@,
            );
            text::law_parts_of_a_string(
                lead + counted_w,
                " — see the hints above\n"@,
                Seq::empty(),
            );
        }
        assert("\nall checks passed\n"@[1] == 'a');
    } else if warnings > 0 {
        assert(s[1] == w[0]);
        assert('0' <= w[0] <= '9');
        assert("\nall checks passed\n"@[1] == 'a');
        assert(s =~= "\n"@ + (w + " warning"@) + (plural_end + ", nothing broken\n"@));
        text::law_parts_of_a_string("\n"@, w + " warning"@, plural_end + ", nothing broken\n"@);
        text::law_parts_of_a_string("\n"@ + counted_w, ", nothing broken\n"@, Seq::empty());
    }
}

/// A number of things is the number, a space and the noun, with an `s` unless there is
/// exactly one.
pub proof fn law_nouns_are_counted(n: nat, noun: Seq<char>)
    ensures
        text::starts_with(counted(n, noun), text::decimal(n) + " "@ + noun),
        counted(n, noun).len() == text::decimal(n).len() + 1 + noun.len() + (if n == 1 {
            0int
        } else {
            1int
        }),
        n != 1 ==> counted(n, noun).last() == 's',
{
    reveal_strlit(" ");
    reveal_strlit("s");
    let one = text::decimal(n) + " "@ + noun;
    assert(one + Seq::<char>::empty() =~= one);
    text::law_parts_of_a_string(Seq::empty(), one, Seq::empty());
    text::law_parts_of_a_string(Seq::empty(), one, "s"@);
}

/// A credential is an admin's exactly where the answer says `admin`, and a worker's exactly
/// where it names a worker.
pub proof fn law_identities_are_read_as_given(body: JsonView, name: Seq<char>)
    ensures
        identity_in(body) == Some(WhoView::Admin) <==> json::get(body, "identity"@) == Some(
            JsonView::Text("admin"@),
        ),
        identity_in(body) == Some(WhoView::Worker(name)) <==> (json::get(
            body,
            "identity"@,
        ) matches Some(who) && json::get(who, "worker"@) == Some(JsonView::Text(name))),
{
}

/// A URL is the server's, without slashes at its end, and then the path.
pub proof fn law_urls_are_the_server_and_the_path(
    server: Seq<char>,
    path: Seq<char>,
    slashes: nat,
)
    requires
        server.len() > 0,
        server.last() != '/',
    ensures
        url_of(server + Seq::new(slashes, |i: int| '/'), path) == server + path,
    decreases slashes,
{
    let tail = Seq::new(slashes, |i: int| '/');
    if slashes == 0 {
        assert(server + tail =~= server);
    } else {
        let fewer = Seq::new((slashes - 1) as nat, |i: int| '/');
        assert(server + tail =~= (server + fewer).push('/'));
        law_trailing_slashes_do_not_matter(server + fewer, path);
        law_urls_are_the_server_and_the_path(server, path, (slashes - 1) as nat);
    }
}

/// The first line of an output is what stands before its first newline, or all of it where
/// there is none, without the white space around it.
pub proof fn law_first_line_ends_at_the_first_newline(line: Seq<char>, rest: Seq<char>)
    requires
        !line.contains('\n'),
    ensures
        first_line(line + seq!['\n'] + rest) == text::trimmed(line),
        first_line(line) == text::trimmed(line),
{
    text::law_newlines_part_lines(line, rest);
}

/// Missing TLS is what an https URL fails with, never another one.
pub proof fn law_tls_is_missing_for_https_only(
    host: Seq<char>,
    before: Seq<char>,
    after: Seq<char>,
    cause: Seq<char>,
)
    ensures
        lacks_tls("https://"@ + host, before + "scheme is not http"@ + after),
        !lacks_tls("http://"@ + host, cause),
        !text::contains(cause, "scheme is not http"@) ==> !lacks_tls("https://"@ + host, cause),
{
    text::law_parts_of_a_string(Seq::empty(), "https://"@, host);
    text::law_parts_of_a_string(before, "scheme is not http"@, after);
    reveal_strlit("https://");
    reveal_strlit("http://");
    text::law_strings_take_apart("http://"@ + host, "https://"@);
    assert("https://"@[4] == 's');
    assert(("http://"@ + host)[4] == ':');
}

/// A check stands for its fields: its name, its verdict, its detail and its hint.
pub proof fn law_checks_stand_for_their_fields(c: Check)
    ensures
        c@.name == c.name@,
        c@.status == c.status,
        c@.detail == c.detail@,
        c.hint is None ==> c@.hint is None,
        c.hint matches Some(h) ==> c@.hint == Some(h@),
{
}

/// A body is read exactly where its bytes are JSON, as that document and its compact text; else
/// it is unreadable, for the reason that reading it gave.
pub proof fn law_bodies_are_what_their_bytes_read_as(bytes: Seq<u8>, body: Body)
    requires
        body_of(bytes, body),
    ensures
        body is Read <==> json::parsed_bytes(bytes) is Ok,
        body matches Body::Read { json, text } ==> json::parsed_bytes(bytes) == Ok::<
            JsonView,
            Seq<char>,
        >(json@) && text@ == json::rendered(json@),
        body matches Body::Unreadable(why) ==> json::parsed_bytes(bytes) == Err::<
            JsonView,
            Seq<char>,
        >(why@),
{
}

} // verus!
