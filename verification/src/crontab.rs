//! The user's crontab as a list of lines: parsing, rendering, and the edits
//! that the application makes to it.
//!
//! Disabled entries are stored as `# CRONAUT-DISABLED: <original line>` so
//! that disabling never deletes the user's data. Comments, environment
//! assignments and unrecognised lines are kept verbatim.
use vstd::prelude::*;
use crate::error::{AppError, AppErrorModel, command_line, text_result, unit_result};
use crate::text::{
    decimal, join, lead_ws, lines, push_char, push_decimal, push_joined, push_span, push_str, skip_word,
    skip_ws, skip_ws_back, spans_text, spans_within, split_lines, split_words, starts_with,
    starts_with_at, string_of, to_chars, trail_ws, trim, trim_start, until, word_len, words,
    find_char, ascii_alpha, ascii_alnum, is_ascii_alpha, is_ascii_alnum, owned, contains,
    has_substring, lemma_lines_len, all_tokens, concat_lines, ends_cr, is_token, is_ws, no_nl,
    occurs_at, lemma_join_shape, lemma_join_split, lemma_lead_ws_bound, lemma_lines_concat,
    lemma_lines_no_nl, lemma_trim_fixed, lemma_trim_shape, lemma_word_len, lemma_word_len_bound,
    lemma_words_join, lemma_words_tokens, no_cr, lemma_concat_lines_of_lines, lemma_words_trim_start,
    lemma_trim_ws_cons,
};

verus! {

/// The marker in front of a disabled entry.
pub const DISABLE_PREFIX: &'static str = "# CRONAUT-DISABLED: ";

/// [`DISABLE_PREFIX`] as a sequence of characters.
pub open spec fn disable_prefix() -> Seq<char> {
    "# CRONAUT-DISABLED: "@
}

/// One line of the crontab.
#[derive(Debug)]
pub enum CronLine {
    /// A schedule and a command, live or disabled.
    Entry {
        /// Stable id derived from the line number; re-issued on every listing.
        id: String,
        line_number: usize,
        schedule: String,
        command: String,
        disabled: bool,
        raw: String,
    },
    /// A comment, a blank line, an environment assignment, or a line that is
    /// not an entry: kept as it is.
    Passthrough { id: String, line_number: usize, raw: String },
}

/// The mathematical value of a [`CronLine`].
pub enum CronLineModel {
    Entry {
        id: Seq<char>,
        line_number: nat,
        schedule: Seq<char>,
        command: Seq<char>,
        disabled: bool,
        raw: Seq<char>,
    },
    Passthrough { id: Seq<char>, line_number: nat, raw: Seq<char> },
}

impl CronLineModel {
    pub open spec fn raw(self) -> Seq<char> {
        match self {
            CronLineModel::Entry { raw, .. } => raw,
            CronLineModel::Passthrough { raw, .. } => raw,
        }
    }

    pub open spec fn line_number(self) -> nat {
        match self {
            CronLineModel::Entry { line_number, .. } => line_number,
            CronLineModel::Passthrough { line_number, .. } => line_number,
        }
    }
}

impl View for CronLine {
    type V = CronLineModel;

    open spec fn view(&self) -> CronLineModel {
        match self {
            CronLine::Entry { id, line_number, schedule, command, disabled, raw } => {
                CronLineModel::Entry {
                    id: id@,
                    line_number: *line_number as nat,
                    schedule: schedule@,
                    command: command@,
                    disabled: *disabled,
                    raw: raw@,
                }
            },
            CronLine::Passthrough { id, line_number, raw } => CronLineModel::Passthrough {
                id: id@,
                line_number: *line_number as nat,
                raw: raw@,
            },
        }
    }
}

/// The views of a list of lines.
pub open spec fn lines_view(ls: Seq<CronLine>) -> Seq<CronLineModel> {
    ls.map_values(|l: CronLine| l@)
}

/// A schedule and a command for a new or edited entry.
#[derive(Debug)]
pub struct CronEntrySpec {
    pub schedule: String,
    pub command: String,
}

/// `split_entry`: the schedule and the command of an entry line, if it is
/// one. A line is an entry either as `@keyword command` or as five schedule
/// fields followed by a non-empty command; fields are re-joined with single
/// spaces.
pub open spec fn split_entry_spec(raw: Seq<char>) -> Option<(Seq<char>, Seq<char>)> {
    let t = trim_start(raw);
    if t.len() > 0 && t[0] == '@' {
        let rest = t.drop_first();
        let k = word_len(rest);
        if k >= rest.len() {
            None
        } else {
            let cmd = trim(rest.skip(k + 1int));
            if cmd.len() == 0 {
                None
            } else {
                Some((seq!['@'] + rest.take(k as int), cmd))
            }
        }
    } else {
        let ws = words(t);
        if ws.len() < 6 {
            None
        } else {
            Some((join(ws.take(5)), join(ws.skip(5))))
        }
    }
}

/// A name made of ASCII letters, digits and `_`, not starting with a digit.
pub open spec fn is_env_name(l: Seq<char>) -> bool {
    &&& l.len() > 0
    &&& forall|i: int| 0 <= i < l.len() ==> is_ascii_alnum(#[trigger] l[i]) || l[i] == '_'
    &&& is_ascii_alpha(l[0]) || l[0] == '_'
}

/// crontab(5) environment assignment: `NAME=value` or `NAME = value`.
pub open spec fn is_env_spec(line: Seq<char>) -> bool {
    let p = until(line, '=');
    p < line.len() && is_env_name(trim(line.take(p as int)))
}

/// A line (already stripped of leading whitespace) that is never an entry:
/// blank, a comment, or an environment assignment.
pub open spec fn is_passthrough_text(t: Seq<char>) -> bool {
    t.len() == 0 || t[0] == '#' || is_env_spec(t)
}

/// The id of the line with the given number.
pub open spec fn line_id(ln: nat) -> Seq<char> {
    seq!['l'] + decimal(ln)
}

/// How one line of a crontab is read.
pub open spec fn classify(raw: Seq<char>, ln: nat) -> CronLineModel {
    let id = line_id(ln);
    let pre = disable_prefix();
    if starts_with(raw, pre) && split_entry_spec(raw.skip(pre.len() as int)) is Some {
        let e = split_entry_spec(raw.skip(pre.len() as int)).unwrap();
        CronLineModel::Entry {
            id,
            line_number: ln,
            schedule: e.0,
            command: e.1,
            disabled: true,
            raw,
        }
    } else if is_passthrough_text(trim_start(raw)) {
        CronLineModel::Passthrough { id, line_number: ln, raw }
    } else if split_entry_spec(raw) is Some {
        let e = split_entry_spec(raw).unwrap();
        CronLineModel::Entry {
            id,
            line_number: ln,
            schedule: e.0,
            command: e.1,
            disabled: false,
            raw,
        }
    } else {
        CronLineModel::Passthrough { id, line_number: ln, raw }
    }
}

/// A crontab read line by line.
pub open spec fn parse_spec(src: Seq<char>) -> Seq<CronLineModel> {
    Seq::new(lines(src).len(), |i: int| classify(lines(src)[i], (i + 1) as nat))
}

/// The text of a list of lines: each raw line followed by a newline.
pub open spec fn render_spec(ls: Seq<CronLineModel>) -> Seq<char>
    decreases ls.len(),
{
    if ls.len() == 0 {
        seq![]
    } else {
        ls[0].raw() + seq!['\n'] + render_spec(ls.drop_first())
    }
}

pub proof fn lemma_render_push(ls: Seq<CronLineModel>, l: CronLineModel)
    ensures
        render_spec(ls.push(l)) == render_spec(ls) + l.raw() + seq!['\n'],
    decreases ls.len(),
{
    if ls.len() == 0 {
        let e = Seq::<CronLineModel>::empty();
        assert(ls.push(l).drop_first() =~= e);
        assert(render_spec(e) == Seq::<char>::empty());
        assert(ls.push(l)[0] == l);
        assert(render_spec(ls.push(l)) == l.raw() + seq!['\n'] + render_spec(e));
        assert(render_spec(ls.push(l)) =~= render_spec(ls) + l.raw() + seq!['\n']);
    } else {
        lemma_render_push(ls.drop_first(), l);
        assert(ls.push(l).drop_first() =~= ls.drop_first().push(l));
        assert(ls.push(l)[0] == ls[0]);
        assert(render_spec(ls.push(l)) =~= render_spec(ls) + l.raw() + seq!['\n']);
    }
}

/// `trim` of `v[lo..hi]` is `v[a..b]` for the indices that the scans give.
proof fn lemma_trim_span(v: Seq<char>, lo: int, hi: int, a: int, b: int)
    requires
        0 <= lo <= hi <= v.len(),
        a == lo + lead_ws(v.subrange(lo, hi)),
        lo <= a <= hi,
        b == hi - trail_ws(v.subrange(a, hi)),
        a <= b <= hi,
    ensures
        trim_start(v.subrange(lo, hi)) == v.subrange(a, hi),
        trim(v.subrange(lo, hi)) == v.subrange(a, b),
{
    assert(v.subrange(lo, hi).skip(a - lo) =~= v.subrange(a, hi));
    assert(v.subrange(a, hi).take(b - a) =~= v.subrange(a, b));
}

/// The schedule and command of an entry in `v[lo..hi]`.
fn split_entry_at(v: &[char], lo: usize, hi: usize) -> (r: Option<(String, String)>)
    requires
        lo <= hi <= v@.len(),
    ensures
        match r {
            Some((s, c)) => split_entry_spec(v@.subrange(lo as int, hi as int)) == Some(
                (s@, c@),
            ),
            None => split_entry_spec(v@.subrange(lo as int, hi as int)) is None,
        },
{
    let ghost raw = v@.subrange(lo as int, hi as int);
    let t0 = skip_ws(v, lo, hi);
    proof {
        assert(raw.skip(t0 - lo) =~= v@.subrange(t0 as int, hi as int));
    }
    let ghost t = v@.subrange(t0 as int, hi as int);
    if t0 < hi && v[t0] == '@' {
        let r0 = t0 + 1;
        let ghost rest = v@.subrange(r0 as int, hi as int);
        proof {
            assert(t.drop_first() =~= rest);
        }
        let k_end = skip_word(v, r0, hi);
        if k_end >= hi {
            return None;
        }
        let c0 = skip_ws(v, k_end + 1, hi);
        let c1 = skip_ws_back(v, c0, hi);
        proof {
            assert(rest.skip(k_end - r0 + 1) =~= v@.subrange(k_end + 1, hi as int));
            lemma_trim_span(v@, k_end + 1, hi as int, c0 as int, c1 as int);
        }
        if c0 == c1 {
            return None;
        }
        let mut sched = String::new();
        push_char(&mut sched, '@');
        push_span(&mut sched, v, r0, k_end);
        let mut cmd = String::new();
        push_span(&mut cmd, v, c0, c1);
        proof {
            assert(rest.take(k_end - r0) =~= v@.subrange(r0 as int, k_end as int));
            assert(sched@ =~= seq!['@'] + rest.take(k_end - r0));
            assert(cmd@ =~= v@.subrange(c0 as int, c1 as int));
        }
        Some((sched, cmd))
    } else {
        let spans = split_words(v, t0, hi);
        if spans.len() < 6 {
            return None;
        }
        let mut sched = String::new();
        push_joined(&mut sched, v, &spans, 0, 5);
        let mut cmd = String::new();
        push_joined(&mut cmd, v, &spans, 5, spans.len());
        proof {
            let ws = spans_text(v@, spans@);
            assert(ws.subrange(0, 5) =~= ws.take(5));
            assert(ws.subrange(5, ws.len() as int) =~= ws.skip(5));
            assert(sched@ =~= join(ws.take(5)));
            assert(cmd@ =~= join(ws.skip(5)));
        }
        Some((sched, cmd))
    }
}

/// Whether `v[lo..hi]` is an environment assignment.
fn is_env_at(v: &[char], lo: usize, hi: usize) -> (b: bool)
    requires
        lo <= hi <= v@.len(),
    ensures
        b == is_env_spec(v@.subrange(lo as int, hi as int)),
{
    let ghost line = v@.subrange(lo as int, hi as int);
    let p = find_char(v, lo, hi, '=');
    if p >= hi {
        return false;
    }
    let a = skip_ws(v, lo, p);
    let b = skip_ws_back(v, a, p);
    proof {
        assert(line.take(p - lo) =~= v@.subrange(lo as int, p as int));
        lemma_trim_span(v@, lo as int, p as int, a as int, b as int);
    }
    let ghost l = v@.subrange(a as int, b as int);
    if a == b {
        return false;
    }
    if !(ascii_alpha(v[a]) || v[a] == '_') {
        proof {
            assert(l[0] == v@[a as int]);
        }
        return false;
    }
    let mut i = a;
    while i < b
        invariant
            a <= i <= b <= v@.len(),
            l == v@.subrange(a as int, b as int),
            is_env_spec(line) == is_env_name(l),
            line == v@.subrange(lo as int, hi as int),
            l.len() > 0,
            forall|j: int| a <= j < i ==> is_ascii_alnum(#[trigger] v@[j]) || v@[j] == '_',
        decreases b - i,
    {
        if !(ascii_alnum(v[i]) || v[i] == '_') {
            proof {
                assert(l[i - a] == v@[i as int]);
                assert(!(is_ascii_alnum(l[i - a]) || l[i - a] == '_'));
            }
            return false;
        }
        i = i + 1;
    }
    proof {
        assert forall|j: int| 0 <= j < l.len() implies is_ascii_alnum(#[trigger] l[j]) || l[j]
            == '_' by {
            assert(l[j] == v@[a + j]);
        }
    }
    true
}

/// The id text for a line number.
fn make_line_id(ln: usize) -> (s: String)
    ensures
        s@ == line_id(ln as nat),
{
    let mut s = String::new();
    push_char(&mut s, 'l');
    push_decimal(&mut s, ln as u64);
    s
}

/// Reads the line `v[lo..hi]`, which is line number `ln`.
fn classify_at(v: &[char], lo: usize, hi: usize, ln: usize, pre: &[char]) -> (l: CronLine)
    requires
        lo <= hi <= v@.len(),
        pre@ == disable_prefix(),
    ensures
        l@ == classify(v@.subrange(lo as int, hi as int), ln as nat),
{
    let ghost raw = v@.subrange(lo as int, hi as int);
    let id = make_line_id(ln);
    let raw_s = string_of(v, lo, hi);
    if starts_with_at(v, lo, hi, pre) {
        let p = lo + pre.len();
        proof {
            assert(raw.skip(pre@.len() as int) =~= v@.subrange(p as int, hi as int));
        }
        match split_entry_at(v, p, hi) {
            Some((schedule, command)) => {
                return CronLine::Entry {
                    id,
                    line_number: ln,
                    schedule,
                    command,
                    disabled: true,
                    raw: raw_s,
                };
            },
            None => {},
        }
    }
    let t0 = skip_ws(v, lo, hi);
    proof {
        assert(raw.skip(t0 - lo) =~= v@.subrange(t0 as int, hi as int));
    }
    let pass = t0 == hi || v[t0] == '#' || is_env_at(v, t0, hi);
    if pass {
        return CronLine::Passthrough { id, line_number: ln, raw: raw_s };
    }
    match split_entry_at(v, lo, hi) {
        Some((schedule, command)) => CronLine::Entry {
            id,
            line_number: ln,
            schedule,
            command,
            disabled: false,
            raw: raw_s,
        },
        None => CronLine::Passthrough { id, line_number: ln, raw: raw_s },
    }
}

/// Reads a crontab: one [`CronLine`] per line of `src`, numbered from 1.
pub fn parse(src: &str) -> (out: Vec<CronLine>)
    ensures
        lines_view(out@) == parse_spec(src@),
{
    let v = to_chars(src);
    let pre = to_chars(DISABLE_PREFIX);
    let spans = split_lines(&v, 0, v.len());
    proof {
        assert(v@.subrange(0, v@.len() as int) =~= src@);
    }
    let ghost ls = lines(src@);
    let mut out: Vec<CronLine> = Vec::new();
    let mut k: usize = 0;
    while k < spans.len()
        invariant
            k <= spans@.len(),
            spans_text(v@, spans@) == ls,
            spans_within(spans@, 0, v@.len() as int),
            pre@ == disable_prefix(),
            out@.len() == k,
            forall|i: int| 0 <= i < k ==> (#[trigger] out@[i])@ == classify(ls[i], (i + 1) as nat),
        decreases spans@.len() - k,
    {
        let (a, b) = spans[k];
        proof {
            assert(ls[k as int] == v@.subrange(a as int, b as int));
        }
        let l = classify_at(&v, a, b, k + 1, &pre);
        out.push(l);
        k = k + 1;
    }
    proof {
        assert(lines_view(out@) =~= parse_spec(src@));
    }
    out
}

/// The public form of [`split_entry_spec`].
pub fn split_entry(raw: &str) -> (r: Option<(String, String)>)
    ensures
        match r {
            Some((s, c)) => split_entry_spec(raw@) == Some((s@, c@)),
            None => split_entry_spec(raw@) is None,
        },
{
    let v = to_chars(raw);
    proof {
        assert(v@.subrange(0, v@.len() as int) =~= raw@);
    }
    split_entry_at(&v, 0, v.len())
}

/// Whether a line is an environment assignment (`NAME=value`).
pub fn is_env_assignment(line: &str) -> (b: bool)
    ensures
        b == is_env_spec(line@),
{
    let v = to_chars(line);
    proof {
        assert(v@.subrange(0, v@.len() as int) =~= line@);
    }
    is_env_at(&v, 0, v.len())
}

/// Writes a list of lines back as crontab text.
pub fn render(lines: &[CronLine]) -> (out: String)
    ensures
        out@ == render_spec(lines_view(lines@)),
{
    let mut out = String::new();
    let mut k: usize = 0;
    while k < lines.len()
        invariant
            k <= lines@.len(),
            out@ == render_spec(lines_view(lines@.take(k as int))),
        decreases lines@.len() - k,
    {
        let raw = match &lines[k] {
            CronLine::Entry { raw, .. } => raw,
            CronLine::Passthrough { raw, .. } => raw,
        };
        push_str(&mut out, raw.as_str());
        push_char(&mut out, '\n');
        proof {
            assert(lines_view(lines@.take(k + 1)) =~= lines_view(lines@.take(k as int)).push(
                lines@[k as int]@,
            ));
            lemma_render_push(lines_view(lines@.take(k as int)), lines@[k as int]@);
        }
        k = k + 1;
    }
    proof {
        assert(lines@.take(lines@.len() as int) =~= lines@);
    }
    out
}

} // verus!

verus! {

/// What `cron::Schedule::from_str` makes of an expression: `None` when it
/// accepts it, or `Some` of the text of the error it returns.
pub uninterp spec fn cron_schedule_error(expr: Seq<char>) -> Option<Seq<char>>;

/// Parses `expr` with `cron::Schedule::from_str` (`FromStr` of the `cron`
/// crate). The contract claims only that the outcome, and on failure the
/// error's `Display` text, is a function of `expr` alone
/// ([`cron_schedule_error`]); which expressions the crate accepts is not
/// stated.
#[verifier::external_body]
fn cron_parse(expr: &str) -> (r: Result<(), String>)
    ensures
        match r {
            Ok(()) => cron_schedule_error(expr@) is None,
            Err(m) => cron_schedule_error(expr@) == Some(m@),
        },
{
    match expr.parse::<cron::Schedule>() {
        Ok(_) => Ok(()),
        Err(e) => Err(e.to_string()),
    }
}

/// The verdict on an outcome of the `cron` parser.
pub open spec fn cron_outcome_spec(outcome: Option<Seq<char>>) -> Result<(), AppErrorModel> {
    match outcome {
        None => Ok(()),
        Some(m) => Err(AppErrorModel::Parse("invalid cron expression: "@ + m)),
    }
}

/// Turns the outcome of the `cron` parser into this library's result.
pub fn cron_outcome(outcome: Result<(), String>) -> (r: Result<(), AppError>)
    ensures
        unit_result(r) == cron_outcome_spec(
            match outcome {
                Ok(()) => None,
                Err(m) => Some(m@),
            },
        ),
{
    match outcome {
        Ok(()) => Ok(()),
        Err(m) => {
            let mut msg = owned("invalid cron expression: ");
            push_str(&mut msg, m.as_str());
            Err(AppError::parse(msg))
        },
    }
}

/// A user-crontab expression (five fields, or `@keyword`) in the six-field
/// form that the `cron` crate reads: a `0` seconds field in front.
pub open spec fn normalised_expr(expr: Seq<char>) -> Seq<char> {
    "0 "@ + trim(expr)
}

/// The verdict of [`validate_cron_expression`].
pub open spec fn cron_verdict(expr: Seq<char>) -> Result<(), AppErrorModel> {
    cron_outcome_spec(cron_schedule_error(normalised_expr(expr)))
}

fn normalise(expr: &str) -> (r: String)
    ensures
        r@ == normalised_expr(expr@),
{
    let v = to_chars(expr);
    let a = skip_ws(&v, 0, v.len());
    let b = skip_ws_back(&v, a, v.len());
    proof {
        assert(v@.subrange(0, v@.len() as int) =~= expr@);
        lemma_trim_span(v@, 0, v@.len() as int, a as int, b as int);
    }
    let mut r = owned("0 ");
    push_span(&mut r, &v, a, b);
    r
}

/// Checks a user-crontab schedule expression with the `cron` crate.
pub fn validate_cron_expression(expr: String) -> (r: Result<(), AppError>)
    ensures
        unit_result(r) == cron_verdict(expr@),
{
    let n = normalise(expr.as_str());
    cron_outcome(cron_parse(n.as_str()))
}

/// The checks on a new or edited entry, in order.
pub open spec fn validate_spec_spec(schedule: Seq<char>, command: Seq<char>) -> Result<
    (),
    AppErrorModel,
> {
    if trim(schedule).len() == 0 {
        Err(AppErrorModel::Invalid("schedule must not be empty"@))
    } else if trim(command).len() == 0 {
        Err(AppErrorModel::Invalid("command must not be empty"@))
    } else if cron_verdict(schedule) is Err {
        cron_verdict(schedule)
    } else if contains(command, seq!['\n']) {
        Err(AppErrorModel::Invalid("command must be a single line"@))
    } else {
        Ok(())
    }
}

fn is_blank(s: &str) -> (b: bool)
    ensures
        b == (trim(s@).len() == 0),
{
    let v = to_chars(s);
    let a = skip_ws(&v, 0, v.len());
    let b = skip_ws_back(&v, a, v.len());
    proof {
        assert(v@.subrange(0, v@.len() as int) =~= s@);
        lemma_trim_span(v@, 0, v@.len() as int, a as int, b as int);
    }
    a == b
}

/// Checks a schedule and command before they are written.
pub fn validate_spec(spec: &CronEntrySpec) -> (r: Result<(), AppError>)
    ensures
        unit_result(r) == validate_spec_spec(spec.schedule@, spec.command@),
{
    if is_blank(spec.schedule.as_str()) {
        return Err(AppError::invalid(owned("schedule must not be empty")));
    }
    if is_blank(spec.command.as_str()) {
        return Err(AppError::invalid(owned("command must not be empty")));
    }
    validate_cron_expression(spec.schedule.clone())?;
    let v = to_chars(spec.command.as_str());
    let mut nl: Vec<char> = Vec::new();
    nl.push('\n');
    if has_substring(&v, &nl) {
        proof {
            assert(nl@ =~= seq!['\n']);
        }
        return Err(AppError::invalid(owned("command must be a single line")));
    }
    proof {
        assert(nl@ =~= seq!['\n']);
    }
    Ok(())
}

/// The error for a line number that the crontab does not have.
pub open spec fn not_found_line(ln: nat) -> AppErrorModel {
    AppErrorModel::NotFound("line "@ + decimal(ln) + " not found"@)
}

/// The error for an edit of a line that is not an entry.
pub open spec fn not_entry() -> AppErrorModel {
    AppErrorModel::Invalid("line is not a managed entry"@)
}

fn line_number_of(l: &CronLine) -> (n: usize)
    ensures
        n as nat == l@.line_number(),
{
    match l {
        CronLine::Entry { line_number, .. } => *line_number,
        CronLine::Passthrough { line_number, .. } => *line_number,
    }
}

/// The index of the first line with the given number.
pub fn locate(lines: &[CronLine], line_number: usize) -> (r: Result<usize, AppError>)
    ensures
        match r {
            Ok(i) => {
                &&& i < lines@.len()
                &&& lines@[i as int]@.line_number() == line_number
                &&& forall|j: int|
                    0 <= j < i ==> (#[trigger] lines@[j])@.line_number() != line_number
            },
            Err(e) => {
                &&& e@ == not_found_line(line_number as nat)
                &&& forall|j: int|
                    0 <= j < lines@.len() ==> (#[trigger] lines@[j])@.line_number()
                        != line_number
            },
        },
{
    let mut k: usize = 0;
    while k < lines.len()
        invariant
            k <= lines@.len(),
            forall|j: int| 0 <= j < k ==> (#[trigger] lines@[j])@.line_number() != line_number,
        decreases lines@.len() - k,
    {
        if line_number_of(&lines[k]) == line_number {
            return Ok(k);
        }
        k = k + 1;
    }
    let mut msg = owned("line ");
    push_decimal(&mut msg, line_number as u64);
    push_str(&mut msg, " not found");
    Err(AppError::not_found(msg))
}

/// The raw text of an entry line.
pub open spec fn entry_raw(disabled: bool, schedule: Seq<char>, command: Seq<char>) -> Seq<char> {
    (if disabled {
        disable_prefix()
    } else {
        seq![]
    }) + schedule + seq![' '] + command
}

/// The entry appended by [`add_crontab_entry`] to a list of lines.
pub open spec fn added_line(ls: Seq<CronLineModel>, schedule: Seq<char>, command: Seq<char>) -> CronLineModel {
    CronLineModel::Entry {
        id: seq!['e'] + decimal(ls.len() + 1),
        line_number: ls.len() + 1,
        schedule,
        command,
        disabled: false,
        raw: entry_raw(false, schedule, command),
    }
}

/// What [`add_crontab_entry`] makes of a crontab.
pub open spec fn add_spec(cur: Seq<char>, schedule: Seq<char>, command: Seq<char>) -> Result<
    Seq<char>,
    AppErrorModel,
> {
    match validate_spec_spec(schedule, command) {
        Err(e) => Err(e),
        Ok(_) => Ok(render_spec(parse_spec(cur).push(added_line(parse_spec(cur), schedule, command)))),
    }
}

/// The entry `l` with a new schedule and command; disabled stays as it was.
pub open spec fn updated_line(l: CronLineModel, schedule: Seq<char>, command: Seq<char>) -> CronLineModel {
    match l {
        CronLineModel::Entry { id, line_number, disabled, .. } => CronLineModel::Entry {
            id,
            line_number,
            schedule,
            command,
            disabled,
            raw: entry_raw(disabled, schedule, command),
        },
        CronLineModel::Passthrough { .. } => l,
    }
}

/// The text from which an entry's schedule and command were read: the line
/// itself, or for a disabled entry the line after the marker.
pub open spec fn entry_source(raw: Seq<char>, disabled: bool) -> Seq<char> {
    if disabled {
        raw.skip(disable_prefix().len() as int)
    } else {
        raw
    }
}

/// The raw text of an entry whose original line is `text`, enabled or
/// disabled.
pub open spec fn toggled_raw(text: Seq<char>, enabled: bool) -> Seq<char> {
    if enabled {
        text
    } else {
        disable_prefix() + text
    }
}

/// The entry `l`, enabled or disabled: disabling puts the marker in front of
/// the original line, enabling gives the original line back.
pub open spec fn toggled_line(l: CronLineModel, enabled: bool) -> CronLineModel {
    match l {
        CronLineModel::Entry { id, line_number, schedule, command, disabled, raw } => CronLineModel::Entry {
            id,
            line_number,
            schedule,
            command,
            disabled: !enabled,
            raw: toggled_raw(entry_source(raw, disabled), enabled),
        },
        CronLineModel::Passthrough { .. } => l,
    }
}

/// The index of line number `ln` in a parsed crontab, or why there is no
/// entry there.
pub open spec fn target(ls: Seq<CronLineModel>, ln: nat) -> Result<int, AppErrorModel> {
    if ln < 1 || ln > ls.len() {
        Err(not_found_line(ln))
    } else if ls[ln - 1] is Passthrough {
        Err(not_entry())
    } else {
        Ok(ln - 1)
    }
}

/// What [`update_crontab_entry`] makes of a crontab.
pub open spec fn update_spec(cur: Seq<char>, ln: nat, schedule: Seq<char>, command: Seq<char>) -> Result<
    Seq<char>,
    AppErrorModel,
> {
    let ls = parse_spec(cur);
    match validate_spec_spec(schedule, command) {
        Err(e) => Err(e),
        Ok(_) => match target(ls, ln) {
            Err(e) => Err(e),
            Ok(i) => Ok(render_spec(ls.update(i, updated_line(ls[i], schedule, command)))),
        },
    }
}

/// What [`toggle_crontab_entry`] makes of a crontab.
pub open spec fn toggle_spec(cur: Seq<char>, ln: nat, enabled: bool) -> Result<Seq<char>, AppErrorModel> {
    let ls = parse_spec(cur);
    match target(ls, ln) {
        Err(e) => Err(e),
        Ok(i) => Ok(render_spec(ls.update(i, toggled_line(ls[i], enabled)))),
    }
}

/// What [`remove_crontab_entry`] makes of a crontab.
pub open spec fn remove_spec(cur: Seq<char>, ln: nat) -> Result<Seq<char>, AppErrorModel> {
    let ls = parse_spec(cur);
    match target(ls, ln) {
        Err(e) => Err(e),
        Ok(i) => Ok(render_spec(ls.remove(i))),
    }
}

/// Line numbers of a parsed crontab count from 1.
proof fn lemma_parsed_numbers(src: Seq<char>)
    ensures
        forall|i: int|
            0 <= i < parse_spec(src).len() ==> (#[trigger] parse_spec(src)[i]).line_number() == i
                + 1,
{
}

/// Finds where line number `ln` sits in a freshly parsed crontab.
fn find_target(lines: &Vec<CronLine>, ln: usize, Ghost(src): Ghost<Seq<char>>) -> (r: Result<usize, AppError>)
    requires
        lines_view(lines@) == parse_spec(src),
    ensures
        match r {
            Ok(i) => target(parse_spec(src), ln as nat) == Ok::<int, AppErrorModel>(i as int),
            Err(e) => target(parse_spec(src), ln as nat) == Err::<int, AppErrorModel>(e@),
        },
{
    proof {
        lemma_parsed_numbers(src);
    }
    let idx = locate(lines.as_slice(), ln);
    match idx {
        Err(e) => {
            proof {
                if 1 <= ln <= lines@.len() {
                    assert(lines_view(lines@)[ln - 1] == lines@[ln - 1]@);
                    assert(lines@[ln - 1]@.line_number() != ln);
                }
            }
            Err(e)
        },
        Ok(i) => {
            proof {
                assert(lines_view(lines@)[i as int] == lines@[i as int]@);
            }
            match &lines[i] {
                CronLine::Entry { .. } => Ok(i),
                CronLine::Passthrough { .. } => Err(AppError::invalid(owned("line is not a managed entry"))),
            }
        },
    }
}

/// Builds the raw text of an entry line.
fn make_entry_raw(disabled: bool, schedule: &str, command: &str) -> (s: String)
    ensures
        s@ == entry_raw(disabled, schedule@, command@),
{
    let mut s = String::new();
    if disabled {
        push_str(&mut s, DISABLE_PREFIX);
    }
    push_str(&mut s, schedule);
    push_char(&mut s, ' ');
    push_str(&mut s, command);
    proof {
        assert(s@ =~= entry_raw(disabled, schedule@, command@));
    }
    s
}

/// A disabled entry of a parsed crontab starts with the marker.
proof fn lemma_disabled_has_marker(src: Seq<char>, i: int)
    requires
        0 <= i < parse_spec(src).len(),
    ensures
        match parse_spec(src)[i] {
            CronLineModel::Entry { disabled, raw, .. } => disabled ==> starts_with(raw, disable_prefix()),
            _ => true,
        },
{
    assert(parse_spec(src)[i] == classify(lines(src)[i], (i + 1) as nat));
}

/// The raw text of an entry after a toggle.
fn make_toggled_raw(raw: &str, disabled: bool, enabled: bool) -> (s: String)
    requires
        disabled ==> starts_with(raw@, disable_prefix()),
    ensures
        s@ == toggled_raw(entry_source(raw@, disabled), enabled),
{
    proof {
        reveal_strlit("# CRONAUT-DISABLED: ");
    }
    let text = if disabled {
        let v = to_chars(raw);
        let t = string_of(&v, 20, v.len());
        proof {
            assert(v@.subrange(20, v@.len() as int) =~= raw@.skip(disable_prefix().len() as int));
        }
        t
    } else {
        owned(raw)
    };
    if enabled {
        text
    } else {
        let mut s = owned(DISABLE_PREFIX);
        push_str(&mut s, text.as_str());
        s
    }
}

/// Adds an entry at the end of the crontab `current`; returns the new text.
pub fn add_crontab_entry(current: &str, spec: CronEntrySpec) -> (r: Result<String, AppError>)
    requires
        current@.len() < usize::MAX,
    ensures
        text_result(r) == add_spec(current@, spec.schedule@, spec.command@),
{
    validate_spec(&spec)?;
    let mut lines = parse(current);
    proof {
        lemma_lines_len(current@);
    }
    let n = lines.len();
    let mut id = String::new();
    push_char(&mut id, 'e');
    push_decimal(&mut id, (n + 1) as u64);
    let raw = make_entry_raw(false, spec.schedule.as_str(), spec.command.as_str());
    let ghost before = lines@;
    lines.push(
        CronLine::Entry {
            id,
            line_number: n + 1,
            schedule: spec.schedule,
            command: spec.command,
            disabled: false,
            raw,
        },
    );
    proof {
        assert(lines_view(lines@) =~= lines_view(before).push(
            added_line(parse_spec(current@), spec.schedule@, spec.command@),
        ));
    }
    Ok(render(lines.as_slice()))
}

/// Gives line number `line_number` a new schedule and command; returns the
/// new text of the crontab.
pub fn update_crontab_entry(current: &str, line_number: usize, spec: CronEntrySpec) -> (r: Result<
    String,
    AppError,
>)
    ensures
        text_result(r) == update_spec(current@, line_number as nat, spec.schedule@, spec.command@),
{
    validate_spec(&spec)?;
    let mut lines = parse(current);
    let idx = find_target(&lines, line_number, Ghost(current@))?;
    let ghost before = lines@;
    let new_line = match &lines[idx] {
        CronLine::Entry { id, line_number, disabled, .. } => {
            let raw = make_entry_raw(*disabled, spec.schedule.as_str(), spec.command.as_str());
            CronLine::Entry {
                id: id.clone(),
                line_number: *line_number,
                schedule: spec.schedule,
                command: spec.command,
                disabled: *disabled,
                raw,
            }
        },
        CronLine::Passthrough { .. } => {
            proof {
                assert(lines_view(lines@)[idx as int] == lines@[idx as int]@);
            }
            return Err(AppError::invalid(owned("line is not a managed entry")));
        },
    };
    lines.set(idx, new_line);
    proof {
        assert(lines_view(before)[idx as int] == before[idx as int]@);
        assert(lines_view(lines@) =~= parse_spec(current@).update(
            idx as int,
            updated_line(parse_spec(current@)[idx as int], spec.schedule@, spec.command@),
        ));
    }
    Ok(render(lines.as_slice()))
}

/// Enables or disables the entry at line number `line_number`; returns the
/// new text of the crontab.
pub fn toggle_crontab_entry(current: &str, line_number: usize, enabled: bool) -> (r: Result<
    String,
    AppError,
>)
    ensures
        text_result(r) == toggle_spec(current@, line_number as nat, enabled),
{
    let mut lines = parse(current);
    let idx = find_target(&lines, line_number, Ghost(current@))?;
    let ghost before = lines@;
    proof {
        lemma_disabled_has_marker(current@, idx as int);
        assert(lines_view(lines@)[idx as int] == lines@[idx as int]@);
    }
    let new_line = match &lines[idx] {
        CronLine::Entry { id, line_number, schedule, command, disabled, raw } => {
            let raw = make_toggled_raw(raw.as_str(), *disabled, enabled);
            CronLine::Entry {
                id: id.clone(),
                line_number: *line_number,
                schedule: schedule.clone(),
                command: command.clone(),
                disabled: !enabled,
                raw,
            }
        },
        CronLine::Passthrough { .. } => {
            proof {
                assert(lines_view(lines@)[idx as int] == lines@[idx as int]@);
            }
            return Err(AppError::invalid(owned("line is not a managed entry")));
        },
    };
    lines.set(idx, new_line);
    proof {
        assert(lines_view(before)[idx as int] == before[idx as int]@);
        assert(lines_view(lines@) =~= parse_spec(current@).update(
            idx as int,
            toggled_line(parse_spec(current@)[idx as int], enabled),
        ));
    }
    Ok(render(lines.as_slice()))
}

/// Removes the entry at line number `line_number`; returns the new text of
/// the crontab.
pub fn remove_crontab_entry(current: &str, line_number: usize) -> (r: Result<String, AppError>)
    ensures
        text_result(r) == remove_spec(current@, line_number as nat),
{
    let mut lines = parse(current);
    let idx = find_target(&lines, line_number, Ghost(current@))?;
    let ghost before = lines@;
    lines.remove(idx);
    proof {
        assert(lines_view(lines@) =~= parse_spec(current@).remove(idx as int));
    }
    Ok(render(lines.as_slice()))
}

/// Lists the crontab `raw`.
pub fn list_crontab(raw: &str) -> (out: Vec<CronLine>)
    ensures
        lines_view(out@) == parse_spec(raw@),
{
    parse(raw)
}

} // verus!

verus! {

/// The raw texts of a list of lines.
pub open spec fn raws(ls: Seq<CronLineModel>) -> Seq<Seq<char>> {
    ls.map_values(|l: CronLineModel| l.raw())
}

/// No line of the text ends with a carriage return once `\r\n` endings are
/// taken away (a line such as `a\r` followed by `\r\n` would).
pub open spec fn no_cr_line_ends(s: Seq<char>) -> bool {
    forall|i: int| 0 <= i < lines(s).len() ==> !ends_cr(#[trigger] lines(s)[i])
}

proof fn lemma_render_concat(ls: Seq<CronLineModel>)
    ensures
        render_spec(ls) == concat_lines(raws(ls)),
    decreases ls.len(),
{
    if ls.len() > 0 {
        lemma_render_concat(ls.drop_first());
        assert(raws(ls.drop_first()) =~= raws(ls).drop_first());
        assert(raws(ls)[0] == ls[0].raw());
    } else {
        assert(raws(ls) =~= Seq::<Seq<char>>::empty());
    }
}

/// Reading a crontab keeps every line: line `i + 1` of the list holds the
/// `i`-th line of the text, verbatim, with line number `i + 1`.
pub proof fn law_parse_keeps_lines(src: Seq<char>)
    ensures
        raws(parse_spec(src)) == lines(src),
        forall|i: int|
            0 <= i < parse_spec(src).len() ==> (#[trigger] parse_spec(src)[i]).line_number() == i
                + 1,
{
    assert(raws(parse_spec(src)) =~= lines(src));
}

/// Writing back an unchanged crontab and reading it again gives the same
/// lines, provided no line ends with a stray carriage return.
pub proof fn law_rewrite_reads_back(src: Seq<char>)
    requires
        no_cr_line_ends(src),
    ensures
        parse_spec(render_spec(parse_spec(src))) == parse_spec(src),
{
    law_parse_keeps_lines(src);
    lemma_render_concat(parse_spec(src));
    lemma_lines_no_nl(src);
    lemma_lines_concat(lines(src));
    assert(lines(render_spec(parse_spec(src))) == lines(src));
    assert(parse_spec(render_spec(parse_spec(src))) =~= parse_spec(src));
}

/// The schedule and command that an entry line yields are in normal form:
/// written back as `schedule command` they read the same.
pub proof fn law_entry_normal_form(x: Seq<char>)
    requires
        split_entry_spec(x) is Some,
    ensures
        split_entry_spec(split_entry_spec(x).unwrap().0 + seq![' '] + split_entry_spec(x).unwrap().1)
            == split_entry_spec(x),
{
    let (a, b) = split_entry_spec(x).unwrap();
    let t = trim_start(x);
    lemma_lead_ws_bound(x);
    let y = a + seq![' '] + b;
    if t.len() > 0 && t[0] == '@' {
        let rest = t.drop_first();
        let k = word_len(rest) as int;
        lemma_word_len_bound(rest);
        let c = rest.skip(k + 1);
        lemma_trim_shape(c);
        assert(b == trim(c));
        assert(a == seq!['@'] + rest.take(k));
        assert(y[0] == '@');
        assert(lead_ws(y) == 0);
        assert(trim_start(y) =~= y);
        let r2 = y.drop_first();
        assert(r2 =~= rest.take(k) + seq![' '] + b);
        assert forall|j: int| 0 <= j < k implies !is_ws(#[trigger] r2[j]) by {
            assert(r2[j] == rest[j]);
        }
        assert(r2[k] == ' ');
        lemma_word_len(r2, k);
        assert(r2.skip(k + 1) =~= b);
        lemma_trim_fixed(b);
        assert(r2.take(k) =~= rest.take(k));
    } else {
        let ws = words(t);
        lemma_words_tokens(t);
        assert(ws.len() >= 6);
        assert(t.len() > 0);
        assert(t[0] == x[lead_ws(x) as int]);
        assert(!is_ws(t[0]));
        lemma_word_len_bound(t);
        assert(ws[0] == t.take(word_len(t) as int));
        assert(ws[0][0] == t[0]);
        lemma_join_split(ws, 5);
        assert(y == join(ws));
        lemma_join_shape(ws);
        assert(y[0] != '@');
        assert(lead_ws(y) == 0);
        assert(trim_start(y) =~= y);
        lemma_words_join(ws);
    }
}

/// An entry line without newlines yields a schedule and a command without
/// newlines; both start and end with a non-whitespace character.
proof fn lemma_split_entry_text(x: Seq<char>)
    requires
        split_entry_spec(x) is Some,
        no_nl(x),
    ensures
        no_nl(split_entry_spec(x).unwrap().0),
        no_nl(split_entry_spec(x).unwrap().1),
        split_entry_spec(x).unwrap().0.len() > 0,
        !is_ws(split_entry_spec(x).unwrap().0[0]),
        split_entry_spec(x).unwrap().1.len() > 0,
        !is_ws(split_entry_spec(x).unwrap().1[0]),
        !is_ws(split_entry_spec(x).unwrap().1.last()),
{
    let (a, b) = split_entry_spec(x).unwrap();
    let t = trim_start(x);
    lemma_trim_shape(x);
    lemma_lead_ws_bound(x);
    if t.len() > 0 && t[0] == '@' {
        let rest = t.drop_first();
        let k = word_len(rest) as int;
        lemma_word_len_bound(rest);
        let c = rest.skip(k + 1);
        assert(no_nl(c)) by {
            assert forall|j: int| 0 <= j < c.len() implies #[trigger] c[j] != '\n' by {
                assert(c[j] == t[j + k + 2]);
            }
        }
        lemma_trim_shape(c);
        assert forall|j: int| 0 <= j < a.len() implies #[trigger] a[j] != '\n' by {
            if j > 0 {
                assert(a[j] == rest[j - 1]);
                assert(!is_ws(rest[j - 1]));
            }
        }
    } else {
        let ws = words(t);
        lemma_words_tokens(t);
        let p = ws.take(5);
        let q = ws.skip(5);
        assert(all_tokens(p)) by {
            assert forall|i: int| 0 <= i < p.len() implies is_token(#[trigger] p[i]) by {
                assert(p[i] == ws[i]);
            }
        }
        assert(all_tokens(q)) by {
            assert forall|i: int| 0 <= i < q.len() implies is_token(#[trigger] q[i]) by {
                assert(q[i] == ws[i + 5]);
            }
        }
        lemma_join_shape(p);
        lemma_join_shape(q);
        assert(is_token(p[0]));
        assert(a[0] == p[0][0]);
        assert(is_token(q[0]));
        assert(b[0] == q[0][0]);
        assert forall|j: int| 0 <= j < a.len() implies #[trigger] a[j] != '\n' by {
            assert(a[j] == ' ' || !is_ws(a[j]));
        }
        assert forall|j: int| 0 <= j < b.len() implies #[trigger] b[j] != '\n' by {
            assert(b[j] == ' ' || !is_ws(b[j]));
        }
    }
}

proof fn lemma_entry_fields(raw: Seq<char>, ln: nat)
    requires
        classify(raw, ln) is Entry,
        no_nl(raw),
    ensures
        match classify(raw, ln) {
            CronLineModel::Entry { schedule, command, disabled, .. } => {
                &&& split_entry_spec(entry_source(raw, disabled)) == Some((schedule, command))
                &&& no_nl(entry_source(raw, disabled))
            },
            _ => true,
        },
{
    let pre = disable_prefix();
    if starts_with(raw, pre) && split_entry_spec(raw.skip(pre.len() as int)) is Some {
        let x = raw.skip(pre.len() as int);
        assert forall|j: int| 0 <= j < x.len() implies #[trigger] x[j] != '\n' by {
            assert(x[j] == raw[j + pre.len()]);
        }
    }
}

/// The raw text of an entry of a parsed crontab, as it is after a toggle.
proof fn lemma_toggled_text(src: Seq<char>, i: int, enabled: bool)
    requires
        0 <= i < parse_spec(src).len(),
        parse_spec(src)[i] is Entry,
        no_cr_line_ends(src),
    ensures
        no_nl(toggled_line(parse_spec(src)[i], enabled).raw()),
        !ends_cr(toggled_line(parse_spec(src)[i], enabled).raw()),
        match parse_spec(src)[i] {
            CronLineModel::Entry { schedule, command, disabled, raw, .. } => {
                &&& split_entry_spec(entry_source(raw, disabled)) == Some((schedule, command))
                &&& raw == lines(src)[i]
                &&& disabled ==> starts_with(raw, disable_prefix())
            },
            _ => true,
        },
{
    reveal_strlit("# CRONAUT-DISABLED: ");
    lemma_lines_no_nl(src);
    lemma_disabled_has_marker(src, i);
    let raw = lines(src)[i];
    assert(parse_spec(src)[i] == classify(raw, (i + 1) as nat));
    lemma_entry_fields(raw, (i + 1) as nat);
    assert(!ends_cr(raw));
    match parse_spec(src)[i] {
        CronLineModel::Entry { disabled, .. } => {
            let x = entry_source(raw, disabled);
            let pre = disable_prefix();
            let t = toggled_raw(x, enabled);
            assert(no_nl(pre));
            if x.len() > 0 {
                assert(x.last() == raw.last());
            }
            if !enabled {
                assert(t == pre + x);
                assert forall|j: int| 0 <= j < t.len() implies #[trigger] t[j] != '\n' by {
                    if j < pre.len() {
                        assert(t[j] == pre[j]);
                    } else {
                        assert(t[j] == x[j - pre.len()]);
                    }
                }
                if x.len() > 0 {
                    assert(t.last() == x.last());
                }
            }
        },
        _ => {},
    }
}

/// Toggling an entry rewrites that one line and leaves every other line of
/// the crontab as it was.
pub proof fn law_toggle_keeps_other_lines(cur: Seq<char>, ln: nat, enabled: bool, body: Seq<char>)
    requires
        toggle_spec(cur, ln, enabled) == Ok::<Seq<char>, AppErrorModel>(body),
        no_cr_line_ends(cur),
    ensures
        lines(body) == lines(cur).update(
            ln - 1,
            toggled_line(parse_spec(cur)[ln - 1], enabled).raw(),
        ),
{
    let ls = parse_spec(cur);
    let i = ln - 1;
    let new = ls.update(i, toggled_line(ls[i], enabled));
    law_parse_keeps_lines(cur);
    lemma_lines_no_nl(cur);
    lemma_toggled_text(cur, i, enabled);
    lemma_render_concat(new);
    let rs = raws(new);
    assert(rs =~= lines(cur).update(i, toggled_line(ls[i], enabled).raw()));
    assert forall|j: int| 0 <= j < rs.len() implies no_nl(#[trigger] rs[j]) && !ends_cr(rs[j]) by {
        if j != i {
            assert(rs[j] == lines(cur)[j]);
        }
    }
    lemma_lines_concat(rs);
}

/// Disabling an entry keeps it: read again, the line is a disabled entry
/// with the same schedule and command.
pub proof fn law_disable_keeps_entry(cur: Seq<char>, ln: nat, body: Seq<char>)
    requires
        toggle_spec(cur, ln, false) == Ok::<Seq<char>, AppErrorModel>(body),
        no_cr_line_ends(cur),
    ensures
        ln >= 1,
        ln <= parse_spec(body).len(),
        match (parse_spec(body)[ln - 1], parse_spec(cur)[ln - 1]) {
            (
                CronLineModel::Entry { schedule: s2, command: c2, disabled, .. },
                CronLineModel::Entry { schedule: s1, command: c1, .. },
            ) => s2 == s1 && c2 == c1 && disabled,
            _ => false,
        },
{
    law_toggle_keeps_other_lines(cur, ln, false, body);
    let i = ln - 1;
    let ls = parse_spec(cur);
    lemma_toggled_text(cur, i, false);
    law_parse_keeps_lines(cur);
    match ls[i] {
        CronLineModel::Entry { disabled, raw: r, .. } => {
            let pre = disable_prefix();
            let x = entry_source(r, disabled);
            let raw = lines(body)[i];
            assert(raw == pre + x);
            assert(raw.take(pre.len() as int) =~= pre);
            assert(raw.skip(pre.len() as int) =~= x);
            assert(parse_spec(body)[i] == classify(raw, ln));
        },
        _ => {},
    }
}

/// A line that does not start with whitespace is its own `trim_start`.
proof fn lemma_trim_start_fixed(x: Seq<char>)
    requires
        x.len() > 0,
        !is_ws(x[0]),
    ensures
        trim_start(x) == x,
{
    lemma_lead_ws_bound(x);
    assert(lead_ws(x) == 0);
    assert(x.skip(0) =~= x);
}

/// Enabling an entry keeps it: read again, the line is a live entry with the
/// same schedule and command, unless the original line itself reads as a
/// comment or an environment assignment.
pub proof fn law_enable_keeps_entry(cur: Seq<char>, ln: nat, body: Seq<char>)
    requires
        toggle_spec(cur, ln, true) == Ok::<Seq<char>, AppErrorModel>(body),
        no_cr_line_ends(cur),
        !is_passthrough_text(trim_start(toggled_line(parse_spec(cur)[ln - 1], true).raw())),
    ensures
        ln >= 1,
        ln <= parse_spec(body).len(),
        match (parse_spec(body)[ln - 1], parse_spec(cur)[ln - 1]) {
            (
                CronLineModel::Entry { schedule: s2, command: c2, disabled, .. },
                CronLineModel::Entry { schedule: s1, command: c1, .. },
            ) => s2 == s1 && c2 == c1 && !disabled,
            _ => false,
        },
{
    reveal_strlit("# CRONAUT-DISABLED: ");
    law_toggle_keeps_other_lines(cur, ln, true, body);
    let i = ln - 1;
    let ls = parse_spec(cur);
    lemma_toggled_text(cur, i, true);
    law_parse_keeps_lines(cur);
    match ls[i] {
        CronLineModel::Entry { disabled, raw: r, .. } => {
            let raw = lines(body)[i];
            let pre = disable_prefix();
            assert(raw == entry_source(r, disabled));
            assert(!starts_with(raw, pre)) by {
                if starts_with(raw, pre) {
                    assert(raw[0] == raw.take(pre.len() as int)[0]);
                    assert(raw[0] == '#');
                    lemma_trim_start_fixed(raw);
                }
            }
            assert(parse_spec(body)[i] == classify(raw, ln));
        },
        _ => {},
    }
}

/// Removing an entry drops that one line and leaves every other line of the
/// crontab as it was.
pub proof fn law_remove_keeps_other_lines(cur: Seq<char>, ln: nat, body: Seq<char>)
    requires
        remove_spec(cur, ln) == Ok::<Seq<char>, AppErrorModel>(body),
        no_cr_line_ends(cur),
    ensures
        lines(body) == lines(cur).remove(ln - 1),
{
    let ls = parse_spec(cur);
    let i = ln - 1;
    let new = ls.remove(i);
    law_parse_keeps_lines(cur);
    lemma_lines_no_nl(cur);
    lemma_render_concat(new);
    let rs = raws(new);
    assert(rs =~= lines(cur).remove(i));
    assert forall|j: int| 0 <= j < rs.len() implies no_nl(#[trigger] rs[j]) && !ends_cr(rs[j]) by {
        if j < i {
            assert(rs[j] == lines(cur)[j]);
        } else {
            assert(rs[j] == lines(cur)[j + 1]);
        }
    }
    lemma_lines_concat(rs);
}

proof fn lemma_no_nl_of_contains(c: Seq<char>)
    requires
        !contains(c, seq!['\n']),
    ensures
        no_nl(c),
{
    assert forall|j: int| 0 <= j < c.len() implies #[trigger] c[j] != '\n' by {
        if c[j] == '\n' {
            assert(c.subrange(j, j + 1) =~= seq!['\n']);
            assert(occurs_at(c, seq!['\n'], j));
        }
    }
}

/// Adding an entry appends one line, `schedule command`, and leaves every
/// other line of the crontab as it was (for a schedule without newlines and
/// a command that does not end with a carriage return).
pub proof fn law_add_appends_one_line(cur: Seq<char>, schedule: Seq<char>, command: Seq<char>, body: Seq<char>)
    requires
        add_spec(cur, schedule, command) == Ok::<Seq<char>, AppErrorModel>(body),
        no_cr_line_ends(cur),
        no_nl(schedule),
        !ends_cr(command),
    ensures
        lines(body) == lines(cur).push(schedule + seq![' '] + command),
{
    let ls = parse_spec(cur);
    let new = ls.push(added_line(ls, schedule, command));
    law_parse_keeps_lines(cur);
    lemma_lines_no_nl(cur);
    lemma_no_nl_of_contains(command);
    lemma_render_concat(new);
    let rs = raws(new);
    let r = schedule + seq![' '] + command;
    assert(added_line(ls, schedule, command).raw() =~= r);
    assert(rs =~= lines(cur).push(r));
    assert(no_nl(r)) by {
        assert forall|j: int| 0 <= j < r.len() implies #[trigger] r[j] != '\n' by {
            if j < schedule.len() {
                assert(r[j] == schedule[j]);
            } else if j > schedule.len() {
                assert(r[j] == command[j - schedule.len() - 1]);
            }
        }
    }
    assert(command.len() > 0) by {
        if command.len() == 0 {
            assert(trim(command) =~= command);
        }
    }
    assert(!ends_cr(r)) by {
        assert(r.last() == command.last());
    }
    assert forall|j: int| 0 <= j < rs.len() implies no_nl(#[trigger] rs[j]) && !ends_cr(rs[j]) by {
        if j < lines(cur).len() {
            assert(rs[j] == lines(cur)[j]);
        }
    }
    lemma_lines_concat(rs);
}

/// Editing an entry rewrites that one line and leaves every other line of
/// the crontab as it was (for a schedule without newlines and a command that
/// does not end with a carriage return).
pub proof fn law_update_keeps_other_lines(
    cur: Seq<char>,
    ln: nat,
    schedule: Seq<char>,
    command: Seq<char>,
    body: Seq<char>,
)
    requires
        update_spec(cur, ln, schedule, command) == Ok::<Seq<char>, AppErrorModel>(body),
        no_cr_line_ends(cur),
        no_nl(schedule),
        !ends_cr(command),
    ensures
        lines(body) == lines(cur).update(
            ln - 1,
            updated_line(parse_spec(cur)[ln - 1], schedule, command).raw(),
        ),
{
    reveal_strlit("# CRONAUT-DISABLED: ");
    let ls = parse_spec(cur);
    let i = ln - 1;
    let u = updated_line(ls[i], schedule, command);
    let new = ls.update(i, u);
    law_parse_keeps_lines(cur);
    lemma_lines_no_nl(cur);
    lemma_no_nl_of_contains(command);
    lemma_render_concat(new);
    let rs = raws(new);
    assert(rs =~= lines(cur).update(i, u.raw()));
    let r = u.raw();
    assert(command.len() > 0) by {
        if command.len() == 0 {
            assert(trim(command) =~= command);
        }
    }
    match ls[i] {
        CronLineModel::Entry { disabled, .. } => {
            let p: Seq<char> = if disabled {
                disable_prefix()
            } else {
                seq![]
            };
            assert(r == p + schedule + seq![' '] + command);
            assert(no_nl(p));
            assert forall|j: int| 0 <= j < r.len() implies #[trigger] r[j] != '\n' by {
                if j < p.len() {
                    assert(r[j] == p[j]);
                } else if j < p.len() + schedule.len() {
                    assert(r[j] == schedule[j - p.len()]);
                } else if j > p.len() + schedule.len() {
                    assert(r[j] == command[j - p.len() - schedule.len() - 1]);
                }
            }
            assert(r.last() == command.last());
        },
        _ => {},
    }
    assert forall|j: int| 0 <= j < rs.len() implies no_nl(#[trigger] rs[j]) && !ends_cr(rs[j]) by {
        if j != i {
            assert(rs[j] == lines(cur)[j]);
        }
    }
    lemma_lines_concat(rs);
}

} // verus!

verus! {

/// What reading the crontab gives when `crontab -l` fails: an empty crontab
/// when the user has none yet, otherwise the failure.
pub open spec fn read_failure_spec(code: Option<i32>, stderr: Seq<char>) -> Result<
    Seq<char>,
    AppErrorModel,
> {
    if contains(stderr, "no crontab for"@) {
        Ok(seq![])
    } else {
        Err(
            AppErrorModel::Command {
                cmd: command_line("crontab"@, seq!["-l"@]),
                code,
                stderr,
            },
        )
    }
}

/// The result of reading the crontab when `crontab -l` exited unsuccessfully
/// with `code` and printed `stderr`: a user without a crontab has an empty
/// one.
pub fn read_crontab_failure(code: Option<i32>, stderr: String) -> (r: Result<String, AppError>)
    ensures
        text_result(r) == read_failure_spec(code, stderr@),
{
    let v = to_chars(stderr.as_str());
    let p = to_chars("no crontab for");
    if has_substring(&v, &p) {
        return Ok(String::new());
    }
    let mut args: Vec<String> = Vec::new();
    args.push(owned("-l"));
    let e = AppError::command("crontab", &args, code, stderr);
    proof {
        assert(crate::error::strings_view(args@) =~= seq!["-l"@]);
    }
    Err(e)
}

} // verus!

verus! {

/// Comments, blank lines, environment assignments and unrecognised lines
/// are never edited: toggling, editing or removing such a line fails with
/// "line is not a managed entry" (an edit checks its new schedule and
/// command first).
pub proof fn law_passthrough_lines_are_never_edited(
    cur: Seq<char>,
    ln: nat,
    enabled: bool,
    schedule: Seq<char>,
    command: Seq<char>,
)
    requires
        1 <= ln <= parse_spec(cur).len(),
        parse_spec(cur)[ln - 1] is Passthrough,
    ensures
        toggle_spec(cur, ln, enabled) == Err::<Seq<char>, AppErrorModel>(not_entry()),
        remove_spec(cur, ln) == Err::<Seq<char>, AppErrorModel>(not_entry()),
        validate_spec_spec(schedule, command) is Ok ==> update_spec(cur, ln, schedule, command)
            == Err::<Seq<char>, AppErrorModel>(not_entry()),
{
}

} // verus!

verus! {

/// Disabling a live entry and enabling it again gives back the whole
/// crontab as it was: the same lines, written back as the library writes
/// every crontab (provided no line ends with a stray carriage return).
pub proof fn law_disable_then_enable_restores(cur: Seq<char>, ln: nat, off: Seq<char>, on: Seq<char>)
    requires
        toggle_spec(cur, ln, false) == Ok::<Seq<char>, AppErrorModel>(off),
        toggle_spec(off, ln, true) == Ok::<Seq<char>, AppErrorModel>(on),
        no_cr_line_ends(cur),
        parse_spec(cur)[ln - 1] matches CronLineModel::Entry { disabled: false, .. },
    ensures
        on == render_spec(parse_spec(cur)),
        lines(on) == lines(cur),
{
    reveal_strlit("# CRONAUT-DISABLED: ");
    let i = ln - 1;
    let ls = parse_spec(cur);
    let t1 = toggled_line(ls[i], false);
    law_disable_keeps_entry(cur, ln, off);
    law_toggle_keeps_other_lines(cur, ln, false, off);
    lemma_toggled_text(cur, i, false);
    law_parse_keeps_lines(cur);
    law_parse_keeps_lines(off);
    let ls2 = parse_spec(off);
    assert(ls2 =~= ls.update(i, t1)) by {
        assert forall|j: int| 0 <= j < ls2.len() implies #[trigger] ls2[j] == ls.update(i, t1)[j] by {
            assert(ls2[j] == classify(lines(off)[j], (j + 1) as nat));
            if j != i {
                assert(lines(off)[j] == lines(cur)[j]);
                assert(ls[j] == classify(lines(cur)[j], (j + 1) as nat));
            } else {
                match ls[i] {
                    CronLineModel::Entry { raw, .. } => {
                        let pre = disable_prefix();
                        let x = lines(off)[i];
                        assert(x == pre + raw);
                        assert(x.take(pre.len() as int) =~= pre);
                        assert(x.skip(pre.len() as int) =~= raw);
                        assert(ls[i] == classify(raw, ln));
                    },
                    _ => {},
                }
            }
        }
    }
    match ls[i] {
        CronLineModel::Entry { raw, .. } => {
            assert((disable_prefix() + raw).skip(disable_prefix().len() as int) =~= raw);
            assert(toggled_line(t1, true) == ls[i]);
        },
        _ => {},
    }
    assert(ls2.update(i, toggled_line(ls2[i], true)) =~= ls);
    law_rewrite_reads_back(cur);
    law_parse_keeps_lines(on);
}

/// Enabling a disabled entry and disabling it again gives back the whole
/// crontab as it was (provided no line ends with a stray carriage return,
/// and the original line does not itself read as a comment or an
/// environment assignment).
pub proof fn law_enable_then_disable_restores(cur: Seq<char>, ln: nat, on: Seq<char>, off: Seq<char>)
    requires
        toggle_spec(cur, ln, true) == Ok::<Seq<char>, AppErrorModel>(on),
        toggle_spec(on, ln, false) == Ok::<Seq<char>, AppErrorModel>(off),
        no_cr_line_ends(cur),
        parse_spec(cur)[ln - 1] matches CronLineModel::Entry { disabled: true, .. },
        !is_passthrough_text(trim_start(toggled_line(parse_spec(cur)[ln - 1], true).raw())),
    ensures
        off == render_spec(parse_spec(cur)),
        lines(off) == lines(cur),
{
    reveal_strlit("# CRONAUT-DISABLED: ");
    let i = ln - 1;
    let ls = parse_spec(cur);
    let t1 = toggled_line(ls[i], true);
    law_enable_keeps_entry(cur, ln, on);
    law_toggle_keeps_other_lines(cur, ln, true, on);
    lemma_toggled_text(cur, i, true);
    law_parse_keeps_lines(cur);
    law_parse_keeps_lines(on);
    let ls2 = parse_spec(on);
    assert(ls2 =~= ls.update(i, t1)) by {
        assert forall|j: int| 0 <= j < ls2.len() implies #[trigger] ls2[j] == ls.update(i, t1)[j] by {
            assert(ls2[j] == classify(lines(on)[j], (j + 1) as nat));
            if j != i {
                assert(lines(on)[j] == lines(cur)[j]);
                assert(ls[j] == classify(lines(cur)[j], (j + 1) as nat));
            }
        }
    }
    match ls[i] {
        CronLineModel::Entry { raw, .. } => {
            let pre = disable_prefix();
            assert(raw =~= pre + raw.skip(pre.len() as int));
            assert(toggled_line(t1, false) == ls[i]);
        },
        _ => {},
    }
    assert(ls2.update(i, toggled_line(ls2[i], false)) =~= ls);
    law_rewrite_reads_back(cur);
    law_parse_keeps_lines(off);
}

/// Every entry of a parsed crontab is its source line, read as it was: it
/// is disabled exactly when the line starts with the marker, its schedule
/// and command are what the line (after the marker) splits into, and both
/// are non-empty, the command with no whitespace at either end.
pub proof fn law_parsed_entries(src: Seq<char>)
    ensures
        forall|i: int|
            0 <= i < parse_spec(src).len() ==> match #[trigger] parse_spec(src)[i] {
                CronLineModel::Entry { schedule, command, disabled, raw, .. } => {
                    &&& raw == lines(src)[i]
                    &&& disabled == starts_with(raw, disable_prefix())
                    &&& split_entry_spec(entry_source(raw, disabled)) == Some((schedule, command))
                    &&& schedule.len() > 0
                    &&& command.len() > 0
                    &&& trim(command) == command
                },
                CronLineModel::Passthrough { raw, .. } => raw == lines(src)[i],
            },
{
    reveal_strlit("# CRONAUT-DISABLED: ");
    lemma_lines_no_nl(src);
    assert forall|i: int| 0 <= i < parse_spec(src).len() implies match #[trigger] parse_spec(src)[i] {
        CronLineModel::Entry { schedule, command, disabled, raw, .. } => {
            &&& raw == lines(src)[i]
            &&& disabled == starts_with(raw, disable_prefix())
            &&& split_entry_spec(entry_source(raw, disabled)) == Some((schedule, command))
            &&& schedule.len() > 0
            &&& command.len() > 0
            &&& trim(command) == command
        },
        CronLineModel::Passthrough { raw, .. } => raw == lines(src)[i],
    } by {
        let raw = lines(src)[i];
        let ln = (i + 1) as nat;
        assert(parse_spec(src)[i] == classify(raw, ln));
        match classify(raw, ln) {
            CronLineModel::Entry { schedule, command, disabled, .. } => {
                lemma_entry_fields(raw, ln);
                let x = entry_source(raw, disabled);
                lemma_split_entry_text(x);
                lemma_trim_fixed(command);
                if !disabled {
                    assert(!starts_with(raw, disable_prefix())) by {
                        if starts_with(raw, disable_prefix()) {
                            assert(raw[0] == raw.take(disable_prefix().len() as int)[0]);
                            lemma_trim_start_fixed(raw);
                        }
                    }
                }
            },
            _ => {},
        }
    }
}

/// Writing a parsed crontab gives each of its lines followed by a newline;
/// for a text without carriage returns that is empty or ends with a newline,
/// that is the text itself.
pub proof fn law_render_parse(src: Seq<char>)
    ensures
        render_spec(parse_spec(src)) == concat_lines(lines(src)),
        no_cr(src) && (src.len() == 0 || src.last() == '\n') ==> render_spec(parse_spec(src)) == src,
{
    lemma_render_concat(parse_spec(src));
    law_parse_keeps_lines(src);
    if no_cr(src) && (src.len() == 0 || src.last() == '\n') {
        lemma_concat_lines_of_lines(src);
    }
}

/// The line of a crontab after its leading whitespace, with the facts the
/// classification laws need about it.
proof fn lemma_line_start(src: Seq<char>, i: int)
    requires
        0 <= i < lines(src).len(),
        trim_start(lines(src)[i]).len() > 0,
        trim_start(lines(src)[i])[0] != '#',
        !is_env_spec(trim_start(lines(src)[i])),
    ensures
        parse_spec(src).len() == lines(src).len(),
        parse_spec(src)[i] == classify(lines(src)[i], (i + 1) as nat),
        !starts_with(lines(src)[i], disable_prefix()),
        !is_passthrough_text(trim_start(lines(src)[i])),
        !is_ws(trim_start(lines(src)[i])[0]),
        words(lines(src)[i]) == words(trim_start(lines(src)[i])),
{
    reveal_strlit("# CRONAUT-DISABLED: ");
    let raw = lines(src)[i];
    lemma_lead_ws_bound(raw);
    lemma_words_trim_start(raw);
    if starts_with(raw, disable_prefix()) {
        assert(raw[0] == raw.take(disable_prefix().len() as int)[0]);
        lemma_trim_start_fixed(raw);
    }
}

/// A line with at least six words is read as a live entry, unless it is a
/// comment, an environment assignment or starts with `@`: its schedule is the
/// first five words and its command the remaining words, each joined by
/// single spaces.
pub proof fn law_five_field_lines_are_entries(src: Seq<char>, i: int)
    requires
        0 <= i < lines(src).len(),
        words(lines(src)[i]).len() >= 6,
        words(lines(src)[i])[0][0] != '@',
        trim_start(lines(src)[i])[0] != '#',
        !is_env_spec(trim_start(lines(src)[i])),
    ensures
        parse_spec(src)[i] matches CronLineModel::Entry { schedule, command, disabled, raw, .. }
            && !disabled && raw == lines(src)[i] && schedule == join(words(lines(src)[i]).take(5))
            && command == join(words(lines(src)[i]).skip(5)),
{
    let raw = lines(src)[i];
    let t = trim_start(raw);
    lemma_words_trim_start(raw);
    if t.len() == 0 {
        assert(words(t).len() == 0);
    }
    lemma_line_start(src, i);
    lemma_word_len_bound(t);
    assert(words(t)[0] == t.take(word_len(t) as int));
    assert(words(t)[0][0] == t[0]);
}

/// A line `@keyword command` is read as a live entry, unless it is an
/// environment assignment: its schedule is the first word (the `@` and the
/// keyword) and its command the rest of the line, trimmed, provided that
/// rest is not blank.
pub proof fn law_keyword_lines_are_entries(src: Seq<char>, i: int)
    requires
        0 <= i < lines(src).len(),
        trim_start(lines(src)[i]).len() > 0,
        trim_start(lines(src)[i])[0] == '@',
        !is_env_spec(trim_start(lines(src)[i])),
        trim(trim_start(lines(src)[i]).skip(words(lines(src)[i])[0].len() as int)).len() > 0,
    ensures
        parse_spec(src)[i] matches CronLineModel::Entry { schedule, command, disabled, raw, .. }
            && !disabled && raw == lines(src)[i] && schedule == words(lines(src)[i])[0] && command
            == trim(trim_start(lines(src)[i]).skip(words(lines(src)[i])[0].len() as int)),
{
    let raw = lines(src)[i];
    let t = trim_start(raw);
    lemma_line_start(src, i);
    let rest = t.drop_first();
    let k = word_len(rest) as int;
    lemma_word_len_bound(rest);
    assert(word_len(t) == k + 1);
    assert(words(t)[0] == t.take(k + 1));
    assert(t.take(k + 1) =~= seq!['@'] + rest.take(k));
    if k >= rest.len() {
        assert(t.skip(k + 1) =~= Seq::<char>::empty());
        assert(trim(t.skip(k + 1)) =~= Seq::<char>::empty());
    } else {
        assert(t.skip(k + 1) =~= seq![rest[k]] + rest.skip(k + 1));
        lemma_trim_ws_cons(rest[k], rest.skip(k + 1));
    }
}

/// Every entry can be edited: removing or toggling it succeeds, and so does
/// giving it a schedule and command that pass validation; a line number
/// outside the crontab is not found. Removing an entry drops exactly that
/// line (provided no line ends with a stray carriage return).
pub proof fn law_entry_edits_succeed(
    cur: Seq<char>,
    ln: nat,
    enabled: bool,
    schedule: Seq<char>,
    command: Seq<char>,
)
    ensures
        1 <= ln <= parse_spec(cur).len() && parse_spec(cur)[ln - 1] is Entry ==> {
            &&& remove_spec(cur, ln) is Ok
            &&& toggle_spec(cur, ln, enabled) is Ok
            &&& validate_spec_spec(schedule, command) is Ok ==> update_spec(cur, ln, schedule, command) is Ok
            &&& no_cr_line_ends(cur) ==> match remove_spec(cur, ln) {
                Ok(body) => lines(body) == lines(cur).remove(ln - 1),
                Err(_) => false,
            }
        },
        ln < 1 || ln > parse_spec(cur).len() ==> {
            &&& remove_spec(cur, ln) == Err::<Seq<char>, AppErrorModel>(not_found_line(ln))
            &&& toggle_spec(cur, ln, enabled) == Err::<Seq<char>, AppErrorModel>(not_found_line(ln))
        },
{
    if 1 <= ln <= parse_spec(cur).len() && parse_spec(cur)[ln - 1] is Entry && no_cr_line_ends(cur) {
        match remove_spec(cur, ln) {
            Ok(body) => law_remove_keeps_other_lines(cur, ln, body),
            Err(_) => {},
        }
    }
}

/// A schedule and a command are accepted when neither is blank, the `cron`
/// parser accepts the schedule and the command is one line; adding them then
/// appends the line `schedule command` to the crontab as written back.
pub proof fn law_valid_entries_are_added(cur: Seq<char>, schedule: Seq<char>, command: Seq<char>)
    requires
        trim(schedule).len() > 0,
        cron_verdict(schedule) is Ok,
        trim(command).len() > 0,
        !contains(command, seq!['\n']),
    ensures
        validate_spec_spec(schedule, command) == Ok::<(), AppErrorModel>(()),
        add_spec(cur, schedule, command) == Ok::<Seq<char>, AppErrorModel>(
            render_spec(parse_spec(cur)) + schedule + seq![' '] + command + seq!['\n'],
        ),
{
    let ls = parse_spec(cur);
    let l = added_line(ls, schedule, command);
    lemma_render_push(ls, l);
    assert(l.raw() =~= schedule + seq![' '] + command);
    assert(render_spec(ls) + l.raw() + seq!['\n'] =~= render_spec(ls) + schedule + seq![' '] + command
        + seq!['\n']);
}

} // verus!
