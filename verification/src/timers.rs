//! `systemd --user` timers: unit names, unit-file contents, the managed
//! marker, and the values read back from `systemctl` and from unit files.
//!
//! Files this library manages carry the marker `# Managed-By: cronaut`; a
//! unit without it is never modified or removed.
use vstd::prelude::*;
use crate::error::{AppError, AppErrorModel, unit_result, strings_view};
use crate::text::{
    owned, push_str, push_char, push_span, to_chars, ascii_alnum, is_ascii_alnum, eq_at, lines,
    split_lines, spans_text, spans_within, skip_ws, skip_ws_back, find_char, eq_ignore_case,
    eq_ignore_case_at, trim, trim_start, until, lead_ws, trail_ws, matches_at, occurs_at, contains,
    has_substring, concat_lines, is_ws, lower, no_nl, strip_cr, lemma_lead_ws_bound,
    lemma_lines_concat_cr, lemma_concat_lines_skip, lemma_concat_lines_add, lemma_strip_cr_append, lemma_trim_fixed, lemma_trim_strip_cr, lemma_until,
};

verus! {

/// Whether `chrono` represents the instant `micros` microseconds after the
/// Unix epoch as a `DateTime<Utc>`: from the first microsecond of the year
/// -262143 to the last microsecond of the year 262142 (`DateTime::<Utc>`'s
/// `MIN_UTC` and `MAX_UTC`).
pub open spec fn in_chrono_range(micros: i64) -> bool {
    -8_334_601_228_800_000_000 <= micros <= 8_210_266_876_799_999_999
}

/// Calls `chrono::DateTime::<Utc>::from_timestamp_micros` and tells whether
/// it returned `Some`. The contract claims that it does exactly for the
/// counts [`in_chrono_range`]: the call splits the count into whole seconds
/// and a sub-second part, and accepts it exactly when the day falls in the
/// years that `NaiveDate` represents.
#[verifier::external_body]
fn chrono_accepts_micros(micros: i64) -> (r: bool)
    ensures
        r == in_chrono_range(micros),
{
    chrono::DateTime::<chrono::Utc>::from_timestamp_micros(micros).is_some()
}

} // verus!

verus! {

/// The marker line that unit files written by this library carry.
pub const MANAGED_MARKER: &'static str = "# Managed-By: cronaut";

/// [`MANAGED_MARKER`] as a sequence of characters.
pub open spec fn managed_marker() -> Seq<char> {
    "# Managed-By: cronaut"@
}

/// The user's description of a timer to create or update.
#[derive(Debug)]
pub struct TimerSpec {
    pub name: String,
    pub description: String,
    pub schedule: String,
    pub command: String,
    pub working_directory: Option<String>,
    /// Whether to enable (on create) or restart (on update) the timer.
    pub enable: bool,
}

/// The default of [`TimerSpec::enable`].
pub fn default_true() -> (b: bool)
    ensures
        b,
{
    true
}

/// A character allowed in a unit name.
pub open spec fn is_name_char(c: char) -> bool {
    is_ascii_alnum(c) || c == '-' || c == '_' || c == '.'
}

/// The checks on a unit name, in order.
pub open spec fn validate_name_spec(name: Seq<char>) -> Result<(), AppErrorModel> {
    if name.len() == 0 {
        Err(AppErrorModel::Invalid("name must not be empty"@))
    } else if !(forall|i: int| 0 <= i < name.len() ==> is_name_char(#[trigger] name[i])) {
        Err(AppErrorModel::Invalid("name may only contain [A-Za-z0-9._-]"@))
    } else if name[0] == '-' || name[0] == '.' {
        Err(AppErrorModel::Invalid("name must not start with - or ."@))
    } else {
        Ok(())
    }
}

/// Checks that `name` can be used as a unit name.
pub fn validate_name(name: &str) -> (r: Result<(), AppError>)
    ensures
        unit_result(r) == validate_name_spec(name@),
{
    let v = to_chars(name);
    if v.len() == 0 {
        return Err(AppError::invalid(owned("name must not be empty")));
    }
    let mut i: usize = 0;
    while i < v.len()
        invariant
            i <= v@.len(),
            v@ == name@,
            forall|j: int| 0 <= j < i ==> is_name_char(#[trigger] v@[j]),
        decreases v@.len() - i,
    {
        let c = v[i];
        if !(ascii_alnum(c) || c == '-' || c == '_' || c == '.') {
            return Err(AppError::invalid(owned("name may only contain [A-Za-z0-9._-]")));
        }
        i = i + 1;
    }
    if v[0] == '-' || v[0] == '.' {
        return Err(AppError::invalid(owned("name must not start with - or .")));
    }
    Ok(())
}

} // verus!

verus! {

/// An ASCII digit.
pub open spec fn is_digit(c: char) -> bool {
    '0' <= c && c <= '9'
}

/// The value of a run of ASCII digits.
pub open spec fn digits_value(d: Seq<char>) -> int
    decreases d.len(),
{
    if d.len() == 0 {
        0
    } else {
        digits_value(d.drop_last()) * 10 + ((d.last() as u32) - 48)
    }
}

/// Every character is an ASCII digit.
pub open spec fn all_digits(d: Seq<char>) -> bool {
    forall|i: int| 0 <= i < d.len() ==> is_digit(#[trigger] d[i])
}

/// `i64::from_str`: an optional `+` or `-`, then one or more ASCII digits,
/// with a value that fits in `i64`.
pub open spec fn parse_i64_spec(s: Seq<char>) -> Option<i64> {
    let neg = s.len() > 0 && s[0] == '-';
    let signed = s.len() > 0 && (s[0] == '-' || s[0] == '+');
    let d = if signed {
        s.drop_first()
    } else {
        s
    };
    if d.len() == 0 || !all_digits(d) {
        None
    } else {
        let v = if neg {
            -digits_value(d)
        } else {
            digits_value(d)
        };
        if i64::MIN <= v && v <= i64::MAX {
            Some(v as i64)
        } else {
            None
        }
    }
}

/// Parses a decimal `i64`.
pub fn parse_i64(v: &[char]) -> (r: Option<i64>)
    ensures
        r == parse_i64_spec(v@),
{
    let n = v.len();
    let mut start: usize = 0;
    let mut neg = false;
    if n > 0 && (v[0] == '-' || v[0] == '+') {
        neg = v[0] == '-';
        start = 1;
    }
    let ghost d = v@.subrange(start as int, n as int);
    proof {
        if start == 1 {
            assert(d =~= v@.drop_first());
        } else {
            assert(d =~= v@);
        }
    }
    if start == n {
        return None;
    }
    let limit: u128 = 9223372036854775808;
    let mut acc: u128 = 0;
    let mut big = false;
    let mut i = start;
    while i < n
        invariant
            start <= i <= n == v@.len(),
            d == v@.subrange(start as int, n as int),
            d == (if start == 1 {
                v@.drop_first()
            } else {
                v@
            }),
            start <= 1,
            (start == 1) == (v@.len() > 0 && (v@[0] == '-' || v@[0] == '+')),
            neg == (v@.len() > 0 && v@[0] == '-'),
            limit == 9223372036854775808,
            forall|j: int| start <= j < i ==> is_digit(#[trigger] v@[j]),
            !big ==> acc == digits_value(v@.subrange(start as int, i as int)) && acc <= limit,
            big ==> digits_value(v@.subrange(start as int, i as int)) > limit,
        decreases n - i,
    {
        let c = v[i];
        if !('0' <= c && c <= '9') {
            proof {
                assert(d[i - start] == c);
                assert(!is_digit(d[i - start]));
            }
            return None;
        }
        let ghost before = v@.subrange(start as int, i as int);
        proof {
            assert(v@.subrange(start as int, i + 1).drop_last() =~= before);
            assert(v@.subrange(start as int, i + 1).last() == c);
            assert(digits_value(v@.subrange(start as int, i + 1)) == digits_value(before) * 10 + (
            (c as u32) - 48));
        }
        let dv: u128 = ((c as u32) - 48) as u128;
        if !big {
            let next = acc * 10 + dv;
            if next > limit {
                big = true;
            } else {
                acc = next;
            }
        }
        i = i + 1;
    }
    proof {
        assert(v@.subrange(start as int, n as int) == d);
        assert forall|j: int| 0 <= j < d.len() implies is_digit(#[trigger] d[j]) by {
            assert(d[j] == v@[start + j]);
        }
    }
    if big {
        return None;
    }
    if neg {
        let m: i128 = -(acc as i128);
        Some(m as i64)
    } else {
        if acc > 9223372036854775807 {
            return None;
        }
        Some(acc as i64)
    }
}

/// `parse_systemctl_time`: the microseconds since the Unix epoch in a time
/// field of `systemctl list-timers --output=json`, if the field is an
/// integer that `chrono` can represent as an instant ([`in_chrono_range`]).
pub open spec fn systemctl_time_spec(s: Seq<char>) -> Option<i64> {
    if s == "n/a"@ || s.len() == 0 {
        None
    } else {
        match parse_i64_spec(s) {
            Some(m) => if in_chrono_range(m) {
                Some(m)
            } else {
                None
            },
            None => None,
        }
    }
}

/// Reads a time field of `systemctl list-timers --output=json`: `n/a` and
/// empty fields have no time; an integer is microseconds since the Unix
/// epoch, kept when `chrono` can represent it.
pub fn parse_systemctl_time(s: &str) -> (r: Option<i64>)
    ensures
        r == systemctl_time_spec(s@),
{
    let v = to_chars(s);
    let na = to_chars("n/a");
    proof {
        assert(v@.subrange(0, v@.len() as int) =~= v@);
    }
    if eq_at(&v, 0, v.len(), &na) || v.len() == 0 {
        return None;
    }
    match parse_i64(&v) {
        Some(m) => {
            if chrono_accepts_micros(m) {
                Some(m)
            } else {
                None
            }
        },
        None => None,
    }
}

/// The value of `key=value` on one line of a unit file, if the line sets
/// `key` (ASCII case ignored); comments start with `#` or `;`.
pub open spec fn grep_line(l: Seq<char>, key: Seq<char>) -> Option<Seq<char>> {
    let t = trim_start(l);
    if t.len() > 0 && (t[0] == '#' || t[0] == ';') {
        None
    } else {
        let p = until(t, '=');
        if p >= t.len() {
            None
        } else if eq_ignore_case(trim(t.take(p as int)), key) {
            Some(trim(t.skip(p + 1int)))
        } else {
            None
        }
    }
}

/// The value on the first line that sets `key`.
pub open spec fn first_value(ls: Seq<Seq<char>>, key: Seq<char>) -> Option<Seq<char>>
    decreases ls.len(),
{
    if ls.len() == 0 {
        None
    } else {
        match grep_line(ls[0], key) {
            Some(v) => Some(v),
            None => first_value(ls.drop_first(), key),
        }
    }
}

/// `grep_value`: the value of `key` in a unit file.
pub open spec fn grep_value_spec(src: Seq<char>, key: Seq<char>) -> Option<Seq<char>> {
    first_value(lines(src), key)
}

proof fn lemma_first_value(ls: Seq<Seq<char>>, key: Seq<char>, k: int)
    requires
        0 <= k <= ls.len(),
        forall|j: int| 0 <= j < k ==> grep_line(#[trigger] ls[j], key) is None,
    ensures
        first_value(ls, key) == first_value(ls.skip(k), key),
    decreases k,
{
    if k == 0 {
        assert(ls.skip(0) =~= ls);
    } else {
        assert forall|j: int| 0 <= j < k - 1 implies grep_line(
            #[trigger] ls.drop_first()[j],
            key,
        ) is None by {
            assert(ls.drop_first()[j] == ls[j + 1]);
        }
        lemma_first_value(ls.drop_first(), key, k - 1);
        assert(ls.drop_first().skip(k - 1) =~= ls.skip(k));
        assert(grep_line(ls[0], key) is None);
        assert(first_value(ls, key) == first_value(ls.drop_first(), key));
    }
}

/// The value that the line `v[lo..hi]` gives to `key`.
fn grep_line_at(v: &[char], lo: usize, hi: usize, key: &[char]) -> (r: Option<String>)
    requires
        lo <= hi <= v@.len(),
    ensures
        match r {
            Some(s) => grep_line(v@.subrange(lo as int, hi as int), key@) == Some(s@),
            None => grep_line(v@.subrange(lo as int, hi as int), key@) is None,
        },
{
    let ghost l = v@.subrange(lo as int, hi as int);
    let t0 = skip_ws(v, lo, hi);
    proof {
        assert(l.skip(t0 - lo) =~= v@.subrange(t0 as int, hi as int));
    }
    let ghost t = v@.subrange(t0 as int, hi as int);
    if t0 < hi && (v[t0] == '#' || v[t0] == ';') {
        return None;
    }
    let p = find_char(v, t0, hi, '=');
    if p >= hi {
        return None;
    }
    let a = skip_ws(v, t0, p);
    let b = skip_ws_back(v, a, p);
    proof {
        assert(t.take(p - t0) =~= v@.subrange(t0 as int, p as int));
        assert(v@.subrange(t0 as int, p as int).skip(a - t0) =~= v@.subrange(a as int, p as int));
        assert(v@.subrange(a as int, p as int).take(b - a) =~= v@.subrange(a as int, b as int));
    }
    if !eq_ignore_case_at(v, a, b, key) {
        return None;
    }
    let c = skip_ws(v, p + 1, hi);
    let d = skip_ws_back(v, c, hi);
    proof {
        assert(t.skip(p - t0 + 1) =~= v@.subrange(p + 1, hi as int));
        assert(v@.subrange(p + 1, hi as int).skip(c - p - 1) =~= v@.subrange(c as int, hi as int));
        assert(v@.subrange(c as int, hi as int).take(d - c) =~= v@.subrange(c as int, d as int));
    }
    let mut s = String::new();
    push_span(&mut s, v, c, d);
    Some(s)
}

/// The value of `key` in the unit file `src`: the trimmed text after `=` on
/// the first line whose trimmed name before `=` equals `key` up to ASCII
/// case, skipping comment lines.
pub fn grep_value(src: &str, key: &str) -> (r: Option<String>)
    ensures
        match r {
            Some(s) => grep_value_spec(src@, key@) == Some(s@),
            None => grep_value_spec(src@, key@) is None,
        },
{
    let v = to_chars(src);
    let kc = to_chars(key);
    let spans = split_lines(&v, 0, v.len());
    proof {
        assert(v@.subrange(0, v@.len() as int) =~= src@);
    }
    let ghost ls = lines(src@);
    let mut k: usize = 0;
    while k < spans.len()
        invariant
            k <= spans@.len(),
            spans_text(v@, spans@) == ls,
            ls == lines(src@),
            spans_within(spans@, 0, v@.len() as int),
            kc@ == key@,
            forall|j: int| 0 <= j < k ==> grep_line(#[trigger] ls[j], key@) is None,
        decreases spans@.len() - k,
    {
        let (a, b) = spans[k];
        proof {
            assert(ls[k as int] == v@.subrange(a as int, b as int));
        }
        match grep_line_at(&v, a, b, &kc) {
            Some(s) => {
                proof {
                    lemma_first_value(ls, key@, k as int);
                    let rest = ls.skip(k as int);
                    assert(rest[0] == ls[k as int]);
                    assert(grep_line(rest[0], key@) == Some(s@));
                    assert(first_value(rest, key@) == Some(s@));
                }
                return Some(s);
            },
            None => {},
        }
        k = k + 1;
    }
    proof {
        lemma_first_value(ls, key@, k as int);
        assert(ls.skip(k as int) =~= Seq::<Seq<char>>::empty());
    }
    None
}

} // verus!

verus! {

/// What a timer's two unit files say about it.
#[derive(Debug)]
pub struct UnitDetails {
    pub description: String,
    pub schedule: String,
    pub working_directory: Option<String>,
    pub command: String,
    pub managed: bool,
}

/// An optional string's value.
pub open spec fn opt_text(o: Option<String>) -> Option<Seq<char>> {
    match o {
        Some(s) => Some(s@),
        None => None,
    }
}

/// The value of an optional text, or the empty text.
pub open spec fn or_empty(o: Option<Seq<char>>) -> Seq<char> {
    match o {
        Some(s) => s,
        None => seq![],
    }
}

fn unwrap_or_empty(o: Option<String>) -> (s: String)
    ensures
        s@ == or_empty(opt_text(o)),
{
    match o {
        Some(s) => s,
        None => String::new(),
    }
}

/// Whether a file's text holds the managed marker.
pub fn is_managed_text(body: &str) -> (b: bool)
    ensures
        b == contains(body@, managed_marker()),
{
    let v = to_chars(body);
    let m = to_chars(MANAGED_MARKER);
    has_substring(&v, &m)
}

/// `read_unit_details`: the description, schedule, working directory and
/// command of a timer, read from the texts of its `.timer` and `.service`
/// files (missing files read as empty), and whether either carries the
/// managed marker.
pub fn read_unit_details(timer_src: &str, service_src: &str) -> (d: UnitDetails)
    ensures
        d.description@ == or_empty(grep_value_spec(service_src@, "Description"@)),
        d.schedule@ == or_empty(grep_value_spec(timer_src@, "OnCalendar"@)),
        d.command@ == or_empty(grep_value_spec(service_src@, "ExecStart"@)),
        opt_text(d.working_directory) == grep_value_spec(service_src@, "WorkingDirectory"@),
        d.managed == (contains(timer_src@, managed_marker()) || contains(
            service_src@,
            managed_marker(),
        )),
{
    let managed = is_managed_text(timer_src) || is_managed_text(service_src);
    let description = unwrap_or_empty(grep_value(service_src, "Description"));
    let schedule = unwrap_or_empty(grep_value(timer_src, "OnCalendar"));
    let command = unwrap_or_empty(grep_value(service_src, "ExecStart"));
    let working_directory = grep_value(service_src, "WorkingDirectory");
    UnitDetails { description, schedule, working_directory, command, managed }
}

/// The working-directory line of a service file.
pub open spec fn wd_line(wd: Option<Seq<char>>) -> Seq<char> {
    match wd {
        Some(w) => "WorkingDirectory="@ + w + "\n"@,
        None => seq![],
    }
}

/// The `.service` file written for a timer.
pub open spec fn service_text(
    description: Seq<char>,
    command: Seq<char>,
    wd: Option<Seq<char>>,
) -> Seq<char> {
    managed_marker() + "\n[Unit]\nDescription="@ + description + "\n\n[Service]\nType=oneshot\nExecStart="@
        + command + "\n"@ + wd_line(wd) + "\n[Install]\nWantedBy=default.target\n"@
}

/// The `.timer` file written for a timer.
pub open spec fn timer_text(name: Seq<char>, schedule: Seq<char>) -> Seq<char> {
    managed_marker() + "\n[Unit]\nDescription=Timer for "@ + name + "\n\n[Timer]\nOnCalendar="@
        + schedule + "\nPersistent=true\nUnit="@ + name + ".service\n\n[Install]\nWantedBy=timers.target\n"@
}

/// The contents of a timer's two unit files.
#[derive(Debug)]
pub struct UnitFiles {
    pub service: String,
    pub timer: String,
}

/// The contents that `write_units` writes for a timer.
pub fn unit_files(spec: &TimerSpec) -> (f: UnitFiles)
    ensures
        f.service@ == service_text(
            spec.description@,
            spec.command@,
            opt_text(spec.working_directory),
        ),
        f.timer@ == timer_text(spec.name@, spec.schedule@),
{
    let mut service = String::new();
    push_str(&mut service, MANAGED_MARKER);
    push_str(&mut service, "\n[Unit]\nDescription=");
    push_str(&mut service, spec.description.as_str());
    push_str(&mut service, "\n\n[Service]\nType=oneshot\nExecStart=");
    push_str(&mut service, spec.command.as_str());
    push_str(&mut service, "\n");
    match &spec.working_directory {
        Some(w) => {
            push_str(&mut service, "WorkingDirectory=");
            push_str(&mut service, w.as_str());
            push_str(&mut service, "\n");
        },
        None => {},
    }
    push_str(&mut service, "\n[Install]\nWantedBy=default.target\n");
    let mut timer = String::new();
    push_str(&mut timer, MANAGED_MARKER);
    push_str(&mut timer, "\n[Unit]\nDescription=Timer for ");
    push_str(&mut timer, spec.name.as_str());
    push_str(&mut timer, "\n\n[Timer]\nOnCalendar=");
    push_str(&mut timer, spec.schedule.as_str());
    push_str(&mut timer, "\nPersistent=true\nUnit=");
    push_str(&mut timer, spec.name.as_str());
    push_str(&mut timer, ".service\n\n[Install]\nWantedBy=timers.target\n");
    proof {
        assert(service@ =~= service_text(
            spec.description@,
            spec.command@,
            opt_text(spec.working_directory),
        ));
        assert(timer@ =~= timer_text(spec.name@, spec.schedule@));
    }
    UnitFiles { service, timer }
}

/// `require_managed` for a unit file shown as `path`, whose text is `body`
/// (`None` when the file does not exist).
pub open spec fn require_managed_spec(path: Seq<char>, body: Option<Seq<char>>) -> Result<
    (),
    AppErrorModel,
> {
    match body {
        None => Err(AppErrorModel::NotFound(path + " does not exist"@)),
        Some(b) => if contains(b, managed_marker()) {
            Ok(())
        } else {
            Err(
                AppErrorModel::Invalid(
                    "refusing to touch "@ + path
                        + ": not managed by cronaut (add `# Managed-By: cronaut` to take ownership)"@,
                ),
            )
        },
    }
}

/// Refuses a unit file that does not exist or does not carry the managed
/// marker.
pub fn require_managed(path: &str, body: Option<&str>) -> (r: Result<(), AppError>)
    ensures
        unit_result(r) == require_managed_spec(
            path@,
            match body {
                Some(b) => Some(b@),
                None => None,
            },
        ),
{
    match body {
        None => {
            let mut msg = owned(path);
            push_str(&mut msg, " does not exist");
            Err(AppError::not_found(msg))
        },
        Some(b) => {
            if is_managed_text(b) {
                Ok(())
            } else {
                let mut msg = owned("refusing to touch ");
                push_str(&mut msg, path);
                push_str(
                    &mut msg,
                    ": not managed by cronaut (add `# Managed-By: cronaut` to take ownership)",
                );
                Err(AppError::invalid(msg))
            }
        },
    }
}

} // verus!

verus! {

/// The views of a list of argument lists.
pub open spec fn commands_view(c: Seq<Vec<String>>) -> Seq<Seq<Seq<char>>> {
    c.map_values(|v: Vec<String>| strings_view(v@))
}

/// The value of a result holding one argument list.
pub open spec fn args_result(r: Result<Vec<String>, AppError>) -> Result<Seq<Seq<char>>, AppErrorModel> {
    match r {
        Ok(a) => Ok(strings_view(a@)),
        Err(e) => Err(e@),
    }
}

fn push_arg(v: &mut Vec<String>, s: &str)
    ensures
        strings_view(final(v)@) == strings_view(old(v)@).push(s@),
{
    v.push(owned(s));
    proof {
        assert(strings_view(v@) =~= strings_view(old(v)@).push(s@));
    }
}

fn push_arg_string(v: &mut Vec<String>, s: String)
    ensures
        strings_view(final(v)@) == strings_view(old(v)@).push(s@),
{
    v.push(s);
    proof {
        assert(strings_view(v@) =~= strings_view(old(v)@).push(s@));
    }
}

/// `name` followed by `suffix`, such as `backup.timer`.
fn unit_file_name(name: &str, suffix: &str) -> (s: String)
    ensures
        s@ == name@ + suffix@,
{
    let mut s = owned(name);
    push_str(&mut s, suffix);
    s
}

/// `systemctl --user verb [--now] unit`.
fn systemctl_unit(verb: &str, now: bool, unit: String) -> (a: Vec<String>)
    ensures
        strings_view(a@) == seq!["--user"@, verb@] + (if now {
            seq!["--now"@]
        } else {
            seq![]
        }) + seq![unit@],
{
    let mut a: Vec<String> = Vec::new();
    push_arg(&mut a, "--user");
    push_arg(&mut a, verb);
    if now {
        push_arg(&mut a, "--now");
    }
    push_arg_string(&mut a, unit);
    proof {
        assert(strings_view(a@) =~= seq!["--user"@, verb@] + (if now {
            seq!["--now"@]
        } else {
            seq![]
        }) + seq![unit@]);
    }
    a
}

/// `systemctl --user daemon-reload`.
fn daemon_reload() -> (a: Vec<String>)
    ensures
        strings_view(a@) == seq!["--user"@, "daemon-reload"@],
{
    let mut a: Vec<String> = Vec::new();
    push_arg(&mut a, "--user");
    push_arg(&mut a, "daemon-reload");
    proof {
        assert(strings_view(a@) =~= seq!["--user"@, "daemon-reload"@]);
    }
    a
}

/// The `systemctl` arguments of [`enable_timer`].
pub open spec fn enable_timer_spec(name: Seq<char>) -> Result<Seq<Seq<char>>, AppErrorModel> {
    match validate_name_spec(name) {
        Err(e) => Err(e),
        Ok(_) => Ok(seq!["--user"@, "enable"@, "--now"@, name + ".timer"@]),
    }
}

/// The `systemctl` arguments of [`disable_timer`].
pub open spec fn disable_timer_spec(name: Seq<char>) -> Result<Seq<Seq<char>>, AppErrorModel> {
    match validate_name_spec(name) {
        Err(e) => Err(e),
        Ok(_) => Ok(seq!["--user"@, "disable"@, "--now"@, name + ".timer"@]),
    }
}

/// The `systemctl` arguments of [`run_timer_now`].
pub open spec fn run_timer_now_spec(name: Seq<char>) -> Result<Seq<Seq<char>>, AppErrorModel> {
    match validate_name_spec(name) {
        Err(e) => Err(e),
        Ok(_) => Ok(seq!["--user"@, "start"@, name + ".service"@]),
    }
}

/// Enables and starts a timer: the arguments for `systemctl`.
pub fn enable_timer(name: &str) -> (r: Result<Vec<String>, AppError>)
    ensures
        args_result(r) == enable_timer_spec(name@),
{
    validate_name(name)?;
    let a = systemctl_unit("enable", true, unit_file_name(name, ".timer"));
    proof {
        assert(strings_view(a@) =~= seq!["--user"@, "enable"@, "--now"@, name@ + ".timer"@]);
    }
    Ok(a)
}

/// Disables and stops a timer: the arguments for `systemctl`.
pub fn disable_timer(name: &str) -> (r: Result<Vec<String>, AppError>)
    ensures
        args_result(r) == disable_timer_spec(name@),
{
    validate_name(name)?;
    let a = systemctl_unit("disable", true, unit_file_name(name, ".timer"));
    proof {
        assert(strings_view(a@) =~= seq!["--user"@, "disable"@, "--now"@, name@ + ".timer"@]);
    }
    Ok(a)
}

/// Runs a timer's service once: the arguments for `systemctl`.
pub fn run_timer_now(name: &str) -> (r: Result<Vec<String>, AppError>)
    ensures
        args_result(r) == run_timer_now_spec(name@),
{
    validate_name(name)?;
    let a = systemctl_unit("start", false, unit_file_name(name, ".service"));
    proof {
        assert(strings_view(a@) =~= seq!["--user"@, "start"@, name@ + ".service"@]);
    }
    Ok(a)
}

/// Unit files to write and `systemctl` commands to run after them.
#[derive(Debug)]
pub struct TimerWrite {
    pub files: UnitFiles,
    pub commands: Vec<Vec<String>>,
}

/// The checks of [`create_timer`], in order.
pub open spec fn create_check_spec(
    name: Seq<char>,
    schedule: Seq<char>,
    command: Seq<char>,
    units_exist: bool,
) -> Result<(), AppErrorModel> {
    if validate_name_spec(name) is Err {
        validate_name_spec(name)
    } else if trim(schedule).len() == 0 {
        Err(AppErrorModel::Invalid("schedule must not be empty"@))
    } else if trim(command).len() == 0 {
        Err(AppErrorModel::Invalid("command must not be empty"@))
    } else if units_exist {
        Err(
            AppErrorModel::Invalid(
                "unit "@ + name + " already exists; use update_timer to modify"@,
            ),
        )
    } else {
        Ok(())
    }
}

/// The commands run after writing a new timer.
pub open spec fn create_commands(name: Seq<char>, enable: bool) -> Seq<Seq<Seq<char>>> {
    seq![seq!["--user"@, "daemon-reload"@]] + (if enable {
        seq![seq!["--user"@, "enable"@, "--now"@, name + ".timer"@]]
    } else {
        seq![]
    })
}

/// The commands run after rewriting a timer.
pub open spec fn update_commands(name: Seq<char>, enable: bool) -> Seq<Seq<Seq<char>>> {
    seq![seq!["--user"@, "daemon-reload"@]] + (if enable {
        seq![seq!["--user"@, "restart"@, name + ".timer"@]]
    } else {
        seq![]
    })
}

/// The files of a write match the spec.
pub open spec fn writes_spec(w: TimerWrite, spec: TimerSpec) -> bool {
    &&& w.files.service@ == service_text(
        spec.description@,
        spec.command@,
        opt_text(spec.working_directory),
    )
    &&& w.files.timer@ == timer_text(spec.name@, spec.schedule@)
}

fn is_blank(s: &str) -> (b: bool)
    ensures
        b == (trim(s@).len() == 0),
{
    let v = to_chars(s);
    let a = skip_ws(&v, 0, v.len());
    let b = skip_ws_back(&v, a, v.len());
    proof {
        assert(v@.subrange(0, v@.len() as int) =~= s@);
        assert(v@.subrange(0, v@.len() as int).skip(a as int) =~= v@.subrange(a as int, v@.len() as int));
        assert(v@.subrange(a as int, v@.len() as int).take(b - a) =~= v@.subrange(a as int, b as int));
    }
    a == b
}

/// Creates a timer whose unit files do not exist yet (`units_exist` tells
/// whether either file exists): the files to write and the commands to run.
pub fn create_timer(spec: &TimerSpec, units_exist: bool) -> (r: Result<TimerWrite, AppError>)
    ensures
        match r {
            Ok(w) => {
                &&& create_check_spec(spec.name@, spec.schedule@, spec.command@, units_exist) is Ok
                &&& writes_spec(w, *spec)
                &&& commands_view(w.commands@) == create_commands(spec.name@, spec.enable)
            },
            Err(e) => create_check_spec(spec.name@, spec.schedule@, spec.command@, units_exist)
                == Err::<(), AppErrorModel>(e@),
        },
{
    validate_name(spec.name.as_str())?;
    if is_blank(spec.schedule.as_str()) {
        return Err(AppError::invalid(owned("schedule must not be empty")));
    }
    if is_blank(spec.command.as_str()) {
        return Err(AppError::invalid(owned("command must not be empty")));
    }
    if units_exist {
        let mut msg = owned("unit ");
        push_str(&mut msg, spec.name.as_str());
        push_str(&mut msg, " already exists; use update_timer to modify");
        return Err(AppError::invalid(msg));
    }
    let files = unit_files(spec);
    let mut commands: Vec<Vec<String>> = Vec::new();
    commands.push(daemon_reload());
    if spec.enable {
        commands.push(systemctl_unit("enable", true, unit_file_name(spec.name.as_str(), ".timer")));
    }
    proof {
        assert(commands_view(commands@) =~~= create_commands(spec.name@, spec.enable));
    }
    Ok(TimerWrite { files, commands })
}

/// The checks of [`update_timer`] and [`remove_timer`], in order.
pub open spec fn managed_check_spec(
    name: Seq<char>,
    timer_path: Seq<char>,
    timer_body: Option<Seq<char>>,
    service_path: Seq<char>,
    service_body: Option<Seq<char>>,
) -> Result<(), AppErrorModel> {
    if validate_name_spec(name) is Err {
        validate_name_spec(name)
    } else if require_managed_spec(timer_path, timer_body) is Err {
        require_managed_spec(timer_path, timer_body)
    } else {
        require_managed_spec(service_path, service_body)
    }
}

/// An optional string slice's value.
pub open spec fn opt_str(o: Option<&str>) -> Option<Seq<char>> {
    match o {
        Some(s) => Some(s@),
        None => None,
    }
}

fn check_managed(
    name: &str,
    timer_path: &str,
    timer_body: Option<&str>,
    service_path: &str,
    service_body: Option<&str>,
) -> (r: Result<(), AppError>)
    ensures
        unit_result(r) == managed_check_spec(
            name@,
            timer_path@,
            opt_str(timer_body),
            service_path@,
            opt_str(service_body),
        ),
{
    validate_name(name)?;
    require_managed(timer_path, timer_body)?;
    require_managed(service_path, service_body)
}

/// Rewrites a managed timer (the existing texts of its `.timer` and
/// `.service` files are given, `None` for a missing file): the files to
/// write and the commands to run.
pub fn update_timer(
    spec: &TimerSpec,
    timer_path: &str,
    timer_body: Option<&str>,
    service_path: &str,
    service_body: Option<&str>,
) -> (r: Result<TimerWrite, AppError>)
    ensures
        match r {
            Ok(w) => {
                &&& managed_check_spec(
                    spec.name@,
                    timer_path@,
                    opt_str(timer_body),
                    service_path@,
                    opt_str(service_body),
                ) is Ok
                &&& writes_spec(w, *spec)
                &&& commands_view(w.commands@) == update_commands(spec.name@, spec.enable)
            },
            Err(e) => managed_check_spec(
                spec.name@,
                timer_path@,
                opt_str(timer_body),
                service_path@,
                opt_str(service_body),
            ) == Err::<(), AppErrorModel>(e@),
        },
{
    check_managed(spec.name.as_str(), timer_path, timer_body, service_path, service_body)?;
    let files = unit_files(spec);
    let mut commands: Vec<Vec<String>> = Vec::new();
    commands.push(daemon_reload());
    if spec.enable {
        commands.push(systemctl_unit("restart", false, unit_file_name(spec.name.as_str(), ".timer")));
    }
    proof {
        assert(commands_view(commands@) =~~= update_commands(spec.name@, spec.enable));
    }
    Ok(TimerWrite { files, commands })
}

/// What removing a timer runs: `disable` (whose failure is ignored), then,
/// after the two files are deleted, `daemon-reload`.
#[derive(Debug)]
pub struct TimerRemoval {
    pub disable: Vec<String>,
    pub reload: Vec<String>,
}

/// Removes a managed timer (the existing texts of its files are given,
/// `None` for a missing file): the commands to run around deleting them.
pub fn remove_timer(
    name: &str,
    timer_path: &str,
    timer_body: Option<&str>,
    service_path: &str,
    service_body: Option<&str>,
) -> (r: Result<TimerRemoval, AppError>)
    ensures
        match r {
            Ok(p) => {
                &&& managed_check_spec(
                    name@,
                    timer_path@,
                    opt_str(timer_body),
                    service_path@,
                    opt_str(service_body),
                ) is Ok
                &&& strings_view(p.disable@) == seq!["--user"@, "disable"@, "--now"@, name@ + ".timer"@]
                &&& strings_view(p.reload@) == seq!["--user"@, "daemon-reload"@]
            },
            Err(e) => managed_check_spec(
                name@,
                timer_path@,
                opt_str(timer_body),
                service_path@,
                opt_str(service_body),
            ) == Err::<(), AppErrorModel>(e@),
        },
{
    check_managed(name, timer_path, timer_body, service_path, service_body)?;
    let disable = systemctl_unit("disable", true, unit_file_name(name, ".timer"));
    proof {
        assert(strings_view(disable@) =~= seq!["--user"@, "disable"@, "--now"@, name@ + ".timer"@]);
    }
    Ok(TimerRemoval { disable, reload: daemon_reload() })
}

/// `is_enabled`: `systemctl is-enabled` printed `enabled` (ASCII case and
/// surrounding whitespace ignored).
pub fn is_enabled(stdout: &str) -> (b: bool)
    ensures
        b == eq_ignore_case(trim(stdout@), "enabled"@),
{
    let v = to_chars(stdout);
    let a = skip_ws(&v, 0, v.len());
    let b = skip_ws_back(&v, a, v.len());
    let word = to_chars("enabled");
    proof {
        assert(v@.subrange(0, v@.len() as int) =~= stdout@);
        assert(v@.subrange(0, v@.len() as int).skip(a as int) =~= v@.subrange(a as int, v@.len() as int));
        assert(v@.subrange(a as int, v@.len() as int).take(b - a) =~= v@.subrange(a as int, b as int));
    }
    eq_ignore_case_at(&v, a, b, &word)
}

/// `is_active`: `systemctl is-active` printed exactly `active` (surrounding
/// whitespace ignored).
pub fn is_active(stdout: &str) -> (b: bool)
    ensures
        b == (trim(stdout@) == "active"@),
{
    let v = to_chars(stdout);
    let a = skip_ws(&v, 0, v.len());
    let b = skip_ws_back(&v, a, v.len());
    let word = to_chars("active");
    proof {
        assert(v@.subrange(0, v@.len() as int) =~= stdout@);
        assert(v@.subrange(0, v@.len() as int).skip(a as int) =~= v@.subrange(a as int, v@.len() as int));
        assert(v@.subrange(a as int, v@.len() as int).take(b - a) =~= v@.subrange(a as int, b as int));
    }
    eq_at(&v, a, b, &word)
}

} // verus!

verus! {

/// The members of one entry of `systemctl list-timers --output=json` that
/// the listing reads, each present when it is a JSON string.
#[derive(Debug)]
pub struct TimerListFields {
    pub unit: Option<String>,
    pub next: Option<String>,
    pub last: Option<String>,
}

/// The value of a [`TimerListFields`].
pub open spec fn fields_view(f: TimerListFields) -> (
    Option<Seq<char>>,
    Option<Seq<char>>,
    Option<Seq<char>>,
) {
    (opt_text(f.unit), opt_text(f.next), opt_text(f.last))
}

/// The values of a list of [`TimerListFields`].
pub open spec fn all_fields_view(fs: Seq<TimerListFields>) -> Seq<
    (Option<Seq<char>>, Option<Seq<char>>, Option<Seq<char>>),
> {
    fs.map_values(|f: TimerListFields| fields_view(f))
}

/// What `serde_json` reads from the output of `systemctl list-timers
/// --output=json`: for each element of the top-level array, its `unit`,
/// `next` and `last` members when they are strings.
pub uninterp spec fn systemctl_timer_json(raw: Seq<char>) -> Seq<
    (Option<Seq<char>>, Option<Seq<char>>, Option<Seq<char>>),
>;

/// JSON whitespace: space, tab, line feed and carriage return.
pub open spec fn is_json_ws(c: char) -> bool {
    c == ' ' || c == '\t' || c == '\n' || c == '\r'
}

/// The text, past any JSON whitespace, opens a JSON array.
pub open spec fn opens_json_array(s: Seq<char>) -> bool {
    exists|i: int|
        0 <= i < s.len() && s[i] == '[' && forall|j: int| 0 <= j < i ==> is_json_ws(#[trigger] s[j])
}

/// Parses `raw` with `serde_json::from_str` as a list of JSON values (text
/// that is not a JSON array reads as no entries) and takes from each value
/// its `unit`, `next` and `last` members when they are strings
/// (`Value::get`, `Value::as_str`). The contract claims that the result is a
/// function of the text alone ([`systemctl_timer_json`]), and that text
/// which does not open a JSON array (empty text among it) gives no entries:
/// `serde_json` reads a list only from a `[`. Which array text gives which
/// members is not stated.
#[verifier::external_body]
fn timer_entries(raw: &str) -> (r: Vec<TimerListFields>)
    ensures
        all_fields_view(r@) == systemctl_timer_json(raw@),
        !opens_json_array(raw@) ==> r@.len() == 0,
{
    let entries: Vec<serde_json::Value> = serde_json::from_str(raw).unwrap_or_default();
    let pick = |e: &serde_json::Value, k: &str| e.get(k).and_then(|v| v.as_str()).map(String::from);
    entries.iter().map(
        |e| TimerListFields { unit: pick(e, "unit"), next: pick(e, "next"), last: pick(e, "last") },
    ).collect()
}

/// `str::ends_with` with a string pattern.
pub open spec fn ends_with(s: Seq<char>, p: Seq<char>) -> bool {
    p.len() <= s.len() && s.skip(s.len() - p.len()) == p
}

/// A timer unit found in the listing, with its trigger times in
/// microseconds since the Unix epoch.
#[derive(Debug)]
pub struct ListedTimer {
    pub name: String,
    pub next_trigger: Option<i64>,
    pub last_trigger: Option<i64>,
}

/// The value of a [`ListedTimer`].
pub open spec fn listed_view(t: ListedTimer) -> (Seq<char>, Option<i64>, Option<i64>) {
    (t.name@, t.next_trigger, t.last_trigger)
}

/// The time of an optional time field.
pub open spec fn time_of(o: Option<Seq<char>>) -> Option<i64> {
    match o {
        Some(s) => systemctl_time_spec(s),
        None => None,
    }
}

/// What one listing entry contributes: a timer, for a unit ending in
/// `.timer`, named by the unit with that one suffix taken off.
pub open spec fn listed_one(f: (Option<Seq<char>>, Option<Seq<char>>, Option<Seq<char>>)) -> Option<
    (Seq<char>, Option<i64>, Option<i64>),
> {
    let unit = or_empty(f.0);
    if ends_with(unit, ".timer"@) {
        Some((unit.take(unit.len() - ".timer"@.len()), time_of(f.1), time_of(f.2)))
    } else {
        None
    }
}

/// The timers of a listing, in order.
pub open spec fn listed(fs: Seq<(Option<Seq<char>>, Option<Seq<char>>, Option<Seq<char>>)>) -> Seq<
    (Seq<char>, Option<i64>, Option<i64>),
>
    decreases fs.len(),
{
    if fs.len() == 0 {
        seq![]
    } else {
        let rest = listed(fs.drop_last());
        match listed_one(fs.last()) {
            Some(t) => rest.push(t),
            None => rest,
        }
    }
}

fn time_field(o: &Option<String>) -> (r: Option<i64>)
    ensures
        r == time_of(opt_text(*o)),
{
    match o {
        Some(s) => parse_systemctl_time(s.as_str()),
        None => None,
    }
}

/// The timers named by already-read listing entries.
pub fn list_timer_entries(entries: Vec<TimerListFields>) -> (r: Vec<ListedTimer>)
    ensures
        r@.map_values(|t: ListedTimer| listed_view(t)) == listed(all_fields_view(entries@)),
{
    let suffix = to_chars(".timer");
    proof {
        reveal_strlit(".timer");
    }
    let mut out: Vec<ListedTimer> = Vec::new();
    let mut k: usize = 0;
    while k < entries.len()
        invariant
            k <= entries@.len(),
            suffix@ == ".timer"@,
            suffix@.len() > 0,
            out@.map_values(|t: ListedTimer| listed_view(t)) == listed(
                all_fields_view(entries@.take(k as int)),
            ),
        decreases entries@.len() - k,
    {
        let e = &entries[k];
        let ghost fs = all_fields_view(entries@.take(k + 1));
        proof {
            assert(fs.drop_last() =~= all_fields_view(entries@.take(k as int)));
            assert(fs.last() == fields_view(entries@[k as int]));
        }
        let unit: Vec<char> = match &e.unit {
            Some(u) => to_chars(u.as_str()),
            None => Vec::new(),
        };
        proof {
            assert(unit@ =~= or_empty(opt_text(e.unit)));
        }
        let n = unit.len();
        let ends = n >= suffix.len() && matches_at(&unit, n - suffix.len(), &suffix);
        proof {
            if n >= suffix@.len() {
                assert(unit@.skip(n - suffix@.len()) =~= unit@.subrange(n - suffix@.len(), n as int));
            }
        }
        let ghost before = out@;
        if ends {
            let end = n - suffix.len();
            let name = crate::text::string_of(&unit, 0, end);
            proof {
                assert(unit@.subrange(0, end as int) =~= unit@.take(end as int));
            }
            out.push(ListedTimer { name, next_trigger: time_field(&e.next), last_trigger: time_field(&e.last) });
            proof {
                assert(out@.map_values(|t: ListedTimer| listed_view(t)) =~= before.map_values(
                    |t: ListedTimer| listed_view(t),
                ).push(listed_one(fields_view(entries@[k as int])).unwrap()));
            }
        }
        k = k + 1;
    }
    proof {
        assert(entries@.take(entries@.len() as int) =~= entries@);
    }
    out
}

/// `list_timers`: the timer units in the output of `systemctl --user
/// list-timers --all --no-pager --output=json`, named without the `.timer`
/// suffix, with their next and last trigger times.
pub fn list_timers(raw_json: &str) -> (r: Vec<ListedTimer>)
    ensures
        r@.map_values(|t: ListedTimer| listed_view(t)) == listed(systemctl_timer_json(raw_json@)),
        !opens_json_array(raw_json@) ==> r@.len() == 0,
{
    let entries = timer_entries(raw_json);
    let r = list_timer_entries(entries);
    proof {
        if !opens_json_array(raw_json@) {
            assert(all_fields_view(entries@) =~= Seq::<(Option<Seq<char>>, Option<Seq<char>>, Option<Seq<char>>)>::empty());
            assert(r@.map_values(|t: ListedTimer| listed_view(t)).len() == 0);
        }
    }
    r
}

/// A timer as the front end shows it.
#[derive(Debug)]
pub struct Timer {
    /// Unit basename without the `.timer` suffix, e.g. `backup-home`.
    pub name: String,
    pub description: String,
    /// systemd `OnCalendar=` expression, e.g. `daily`, `*-*-* 02:30:00`.
    pub schedule: String,
    /// Command line passed to `ExecStart=`.
    pub command: String,
    pub working_directory: Option<String>,
    pub enabled: bool,
    pub active: bool,
    /// Microseconds since the Unix epoch.
    pub last_trigger: Option<i64>,
    /// Microseconds since the Unix epoch.
    pub next_trigger: Option<i64>,
    pub managed: bool,
}

impl Timer {
    /// Puts together what the listing, the unit files and `systemctl`
    /// report about one timer.
    pub fn from_parts(listed: ListedTimer, details: UnitDetails, enabled: bool, active: bool) -> (t: Timer)
        ensures
            t.name == listed.name,
            t.next_trigger == listed.next_trigger,
            t.last_trigger == listed.last_trigger,
            t.description == details.description,
            t.schedule == details.schedule,
            t.command == details.command,
            t.working_directory == details.working_directory,
            t.managed == details.managed,
            t.enabled == enabled,
            t.active == active,
    {
        Timer {
            name: listed.name,
            description: details.description,
            schedule: details.schedule,
            command: details.command,
            working_directory: details.working_directory,
            enabled,
            active,
            last_trigger: listed.last_trigger,
            next_trigger: listed.next_trigger,
            managed: details.managed,
        }
    }
}

} // verus!

verus! {

/// A line without `=` sets no key.
proof fn lemma_plain_line(l: Seq<char>, key: Seq<char>)
    requires
        forall|j: int| 0 <= j < l.len() ==> #[trigger] l[j] != '=',
    ensures
        grep_line(strip_cr(l), key) is None,
{
    let m = strip_cr(l);
    assert forall|j: int| 0 <= j < m.len() implies #[trigger] m[j] != '=' by {
        assert(m[j] == l[j]);
    }
    lemma_lead_ws_bound(m);
    let t = trim_start(m);
    assert forall|j: int| 0 <= j < t.len() implies #[trigger] t[j] != '=' by {
        assert(t[j] == m[j + lead_ws(m)]);
    }
    lemma_until(t, '=', t.len() as int);
}

/// The line `k=v` sets key `k` to `trim(v)`.
proof fn lemma_kv_line(k: Seq<char>, v: Seq<char>, key: Seq<char>)
    requires
        k.len() > 0,
        !is_ws(k[0]),
        k[0] != '#',
        k[0] != ';',
        !is_ws(k.last()),
        forall|j: int| 0 <= j < k.len() ==> #[trigger] k[j] != '=',
    ensures
        grep_line(strip_cr(k + seq!['='] + v), key) == (if eq_ignore_case(k, key) {
            Some(trim(v))
        } else {
            None
        }),
{
    let p = k + seq!['='];
    assert(p.last() == '=');
    lemma_strip_cr_append(p, v);
    let w = strip_cr(v);
    let l = p + w;
    assert(strip_cr(k + seq!['='] + v) == l);
    assert(l[0] == k[0]);
    assert(lead_ws(l) == 0);
    assert(trim_start(l) =~= l);
    assert forall|j: int| 0 <= j < k.len() implies #[trigger] l[j] != '=' by {
        assert(l[j] == k[j]);
    }
    assert(l[k.len() as int] == '=');
    lemma_until(l, '=', k.len() as int);
    assert(l.take(k.len() as int) =~= k);
    lemma_trim_fixed(k);
    assert(l.skip(k.len() + 1int) =~= w);
    lemma_trim_strip_cr(v);
}

proof fn lemma_ic_len(a: Seq<char>, b: Seq<char>)
    requires
        a.len() != b.len(),
    ensures
        !eq_ignore_case(a, b),
{
    assert(lower(a).len() == a.len());
    assert(lower(b).len() == b.len());
}

/// The lines of a `.service` file written for a timer.
pub open spec fn service_lines(d: Seq<char>, c: Seq<char>, wd: Option<Seq<char>>) -> Seq<Seq<char>> {
    seq![
        managed_marker(),
        "[Unit]"@,
        "Description"@ + seq!['='] + d,
        seq![],
        "[Service]"@,
        "Type"@ + seq!['='] + "oneshot"@,
        "ExecStart"@ + seq!['='] + c,
    ] + match wd {
        Some(w) => seq!["WorkingDirectory"@ + seq!['='] + w],
        None => seq![],
    } + seq![seq![], "[Install]"@, "WantedBy"@ + seq!['='] + "default.target"@]
}

/// The lines of a `.timer` file written for a timer.
pub open spec fn timer_lines(name: Seq<char>, schedule: Seq<char>) -> Seq<Seq<char>> {
    seq![
        managed_marker(),
        "[Unit]"@,
        "Description"@ + seq!['='] + "Timer for "@ + name,
        seq![],
        "[Timer]"@,
        "OnCalendar"@ + seq!['='] + schedule,
        "Persistent"@ + seq!['='] + "true"@,
        "Unit"@ + seq!['='] + name + ".service"@,
        seq![],
        "[Install]"@,
        "WantedBy"@ + seq!['='] + "timers.target"@,
    ]
}

/// The words of the unit files, character by character.
proof fn lemma_unit_words()
    ensures
        managed_marker() == seq!['#', ' ', 'M', 'a', 'n', 'a', 'g', 'e', 'd', '-', 'B', 'y', ':', ' ', 'c', 'r', 'o', 'n', 'a', 'u', 't'],
        "[Unit]"@ == seq!['[', 'U', 'n', 'i', 't', ']'],
        "Description"@ == seq!['D', 'e', 's', 'c', 'r', 'i', 'p', 't', 'i', 'o', 'n'],
        "[Service]"@ == seq!['[', 'S', 'e', 'r', 'v', 'i', 'c', 'e', ']'],
        "Type"@ == seq!['T', 'y', 'p', 'e'],
        "oneshot"@ == seq!['o', 'n', 'e', 's', 'h', 'o', 't'],
        "ExecStart"@ == seq!['E', 'x', 'e', 'c', 'S', 't', 'a', 'r', 't'],
        "WorkingDirectory"@ == seq!['W', 'o', 'r', 'k', 'i', 'n', 'g', 'D', 'i', 'r', 'e', 'c', 't', 'o', 'r', 'y'],
        "[Install]"@ == seq!['[', 'I', 'n', 's', 't', 'a', 'l', 'l', ']'],
        "WantedBy"@ == seq!['W', 'a', 'n', 't', 'e', 'd', 'B', 'y'],
        "default.target"@ == seq!['d', 'e', 'f', 'a', 'u', 'l', 't', '.', 't', 'a', 'r', 'g', 'e', 't'],
        "Timer for "@ == seq!['T', 'i', 'm', 'e', 'r', ' ', 'f', 'o', 'r', ' '],
        "[Timer]"@ == seq!['[', 'T', 'i', 'm', 'e', 'r', ']'],
        "OnCalendar"@ == seq!['O', 'n', 'C', 'a', 'l', 'e', 'n', 'd', 'a', 'r'],
        "Persistent"@ == seq!['P', 'e', 'r', 's', 'i', 's', 't', 'e', 'n', 't'],
        "true"@ == seq!['t', 'r', 'u', 'e'],
        "Unit"@ == seq!['U', 'n', 'i', 't'],
        ".service"@ == seq!['.', 's', 'e', 'r', 'v', 'i', 'c', 'e'],
        "timers.target"@ == seq!['t', 'i', 'm', 'e', 'r', 's', '.', 't', 'a', 'r', 'g', 'e', 't'],
{
    reveal_strlit("# Managed-By: cronaut");
    reveal_strlit("[Unit]");
    reveal_strlit("Description");
    reveal_strlit("[Service]");
    reveal_strlit("Type");
    reveal_strlit("oneshot");
    reveal_strlit("ExecStart");
    reveal_strlit("WorkingDirectory");
    reveal_strlit("[Install]");
    reveal_strlit("WantedBy");
    reveal_strlit("default.target");
    reveal_strlit("Timer for ");
    reveal_strlit("[Timer]");
    reveal_strlit("OnCalendar");
    reveal_strlit("Persistent");
    reveal_strlit("true");
    reveal_strlit("Unit");
    reveal_strlit(".service");
    reveal_strlit("timers.target");
}

/// The text of a run of three lines.
proof fn lemma_three_lines(x: Seq<char>, y: Seq<char>, z: Seq<char>)
    ensures
        concat_lines(seq![x, y, z]) == x + seq!['\n'] + y + seq!['\n'] + z + seq!['\n'],
{
    let rs = seq![x, y, z];
    lemma_concat_lines_skip(rs, 0);
    lemma_concat_lines_skip(rs, 1);
    lemma_concat_lines_skip(rs, 2);
    assert(rs.skip(0) =~= rs);
    assert(rs.skip(3) =~= Seq::<Seq<char>>::empty());
    assert(concat_lines(rs) =~= x + seq!['\n'] + y + seq!['\n'] + z + seq!['\n']);
}

/// The text of a run of four lines.
proof fn lemma_four_lines(w: Seq<char>, x: Seq<char>, y: Seq<char>, z: Seq<char>)
    ensures
        concat_lines(seq![w, x, y, z]) == w + seq!['\n'] + (x + seq!['\n'] + y + seq!['\n'] + z
            + seq!['\n']),
{
    let rs = seq![w, x, y, z];
    lemma_concat_lines_skip(rs, 0);
    assert(rs.skip(0) =~= rs);
    assert(rs.skip(1) =~= seq![x, y, z]);
    lemma_three_lines(x, y, z);
}

#[verifier::spinoff_prover]
proof fn lemma_service_text_lines(d: Seq<char>, c: Seq<char>, wd: Option<Seq<char>>)
    ensures
        service_text(d, c, wd) == concat_lines(service_lines(d, c, wd)),
{
    let nl = seq!['\n'];
    let de = "Description"@ + seq!['='] + d;
    let ex = "ExecStart"@ + seq!['='] + c;
    let a1 = seq![managed_marker(), "[Unit]"@, de];
    let a2 = seq![seq![], "[Service]"@, "Type"@ + seq!['='] + "oneshot"@, ex];
    let m: Seq<Seq<char>> = match wd {
        Some(w) => seq!["WorkingDirectory"@ + seq!['='] + w],
        None => seq![],
    };
    let z = seq![seq![], "[Install]"@, "WantedBy"@ + seq!['='] + "default.target"@];
    assert(service_lines(d, c, wd) =~= a1 + a2 + m + z);
    lemma_concat_lines_add(a1 + a2 + m, z);
    lemma_concat_lines_add(a1 + a2, m);
    lemma_concat_lines_add(a1, a2);
    lemma_three_lines(managed_marker(), "[Unit]"@, de);
    assert(concat_lines(a1) =~= managed_marker() + "\n[Unit]\nDescription="@ + d + nl) by {
        reveal_strlit("\n[Unit]\nDescription=");
        reveal_strlit("[Unit]");
        reveal_strlit("Description");
    }
    lemma_four_lines(seq![], "[Service]"@, "Type"@ + seq!['='] + "oneshot"@, ex);
    assert(concat_lines(a2) =~= "\n\n[Service]\nType=oneshot\nExecStart="@.drop_first() + c + nl) by {
        reveal_strlit("\n\n[Service]\nType=oneshot\nExecStart=");
        reveal_strlit("[Service]");
        reveal_strlit("Type");
        reveal_strlit("oneshot");
        reveal_strlit("ExecStart");
    }
    assert("\n\n[Service]\nType=oneshot\nExecStart="@ =~= nl
        + "\n\n[Service]\nType=oneshot\nExecStart="@.drop_first()) by {
        reveal_strlit("\n\n[Service]\nType=oneshot\nExecStart=");
    }
    lemma_three_lines(seq![], "[Install]"@, "WantedBy"@ + seq!['='] + "default.target"@);
    assert(concat_lines(z) =~= "\n[Install]\nWantedBy=default.target\n"@) by {
        reveal_strlit("\n[Install]\nWantedBy=default.target\n");
        reveal_strlit("[Install]");
        reveal_strlit("WantedBy");
        reveal_strlit("default.target");
    }
    assert(concat_lines(m) =~= wd_line(wd)) by {
        match wd {
            Some(w) => {
                let l = "WorkingDirectory"@ + seq!['='] + w;
                lemma_concat_lines_skip(m, 0);
                assert(m.skip(0) =~= m);
                assert(m.skip(1) =~= Seq::<Seq<char>>::empty());
                reveal_strlit("WorkingDirectory=");
                reveal_strlit("WorkingDirectory");
                reveal_strlit("\n");
            },
            None => {},
        }
    }
    assert("\n"@ =~= nl) by {
        reveal_strlit("\n");
    }
    assert(service_text(d, c, wd) =~= concat_lines(a1) + concat_lines(a2) + concat_lines(m)
        + concat_lines(z));
}

} // verus!

verus! {

/// The text of four runs of lines.
proof fn lemma_concat_four(a: Seq<Seq<char>>, b: Seq<Seq<char>>, c: Seq<Seq<char>>, d: Seq<Seq<char>>)
    ensures
        concat_lines(a + b + c + d) == concat_lines(a) + concat_lines(b) + concat_lines(c)
            + concat_lines(d),
{
    lemma_concat_lines_add(a + b + c, d);
    lemma_concat_lines_add(a + b, c);
    lemma_concat_lines_add(a, b);
}

/// The text of a run of two lines.
proof fn lemma_two_lines(x: Seq<char>, y: Seq<char>)
    ensures
        concat_lines(seq![x, y]) == x + seq!['\n'] + y + seq!['\n'],
{
    let rs = seq![x, y];
    lemma_concat_lines_skip(rs, 0);
    lemma_concat_lines_skip(rs, 1);
    assert(rs.skip(0) =~= rs);
    assert(rs.skip(2) =~= Seq::<Seq<char>>::empty());
    assert(concat_lines(rs) =~= x + seq!['\n'] + y + seq!['\n']);
}

/// The lines of a `.timer` file, joined, piece by piece.
proof fn lemma_timer_shape(name: Seq<char>, schedule: Seq<char>)
    ensures
        concat_lines(timer_lines(name, schedule)) == (managed_marker() + seq!['\n'] + "[Unit]"@
            + seq!['\n'] + ("Description"@ + seq!['='] + "Timer for "@ + name) + seq!['\n']) + (
        Seq::<char>::empty() + seq!['\n'] + "[Timer]"@ + seq!['\n'] + ("OnCalendar"@ + seq!['=']
            + schedule) + seq!['\n']) + (("Persistent"@ + seq!['='] + "true"@) + seq!['\n'] + (
        "Unit"@ + seq!['='] + name + ".service"@) + seq!['\n']) + (Seq::<char>::empty()
            + seq!['\n'] + "[Install]"@ + seq!['\n'] + ("WantedBy"@ + seq!['='] + "timers.target"@)
            + seq!['\n']),
{
    let e = Seq::<char>::empty();
    let g1 = seq![managed_marker(), "[Unit]"@, "Description"@ + seq!['='] + "Timer for "@ + name];
    let g2 = seq![e, "[Timer]"@, "OnCalendar"@ + seq!['='] + schedule];
    let g3 = seq!["Persistent"@ + seq!['='] + "true"@, "Unit"@ + seq!['='] + name + ".service"@];
    let g4 = seq![e, "[Install]"@, "WantedBy"@ + seq!['='] + "timers.target"@];
    assert(timer_lines(name, schedule) =~= g1 + g2 + g3 + g4);
    lemma_concat_four(g1, g2, g3, g4);
    lemma_three_lines(g1[0], g1[1], g1[2]);
    lemma_three_lines(g2[0], g2[1], g2[2]);
    lemma_three_lines(g4[0], g4[1], g4[2]);
    lemma_two_lines(g3[0], g3[1]);
}

/// The literal pieces of a `.timer` file, word by word.
proof fn lemma_timer_words()
    ensures
        "\n[Unit]\nDescription=Timer for "@ == seq!['\n'] + "[Unit]"@ + seq!['\n'] + "Description"@
            + seq!['='] + "Timer for "@,
        "\n\n[Timer]\nOnCalendar="@ == seq!['\n'] + Seq::<char>::empty() + seq!['\n'] + "[Timer]"@
            + seq!['\n'] + "OnCalendar"@ + seq!['='],
        "\nPersistent=true\nUnit="@ == seq!['\n'] + "Persistent"@ + seq!['='] + "true"@ + seq!['\n']
            + "Unit"@ + seq!['='],
        ".service\n\n[Install]\nWantedBy=timers.target\n"@ == ".service"@ + seq!['\n']
            + Seq::<char>::empty() + seq!['\n'] + "[Install]"@ + seq!['\n'] + "WantedBy"@ + seq!['=']
            + "timers.target"@ + seq!['\n'],
{
    lemma_unit_words();
    reveal_strlit("\n[Unit]\nDescription=Timer for ");
    reveal_strlit("\n\n[Timer]\nOnCalendar=");
    reveal_strlit("\nPersistent=true\nUnit=");
    reveal_strlit(".service\n\n[Install]\nWantedBy=timers.target\n");
    assert("\n[Unit]\nDescription=Timer for "@ =~= seq!['\n'] + "[Unit]"@ + seq!['\n'] + "Description"@
        + seq!['='] + "Timer for "@);
    assert("\n\n[Timer]\nOnCalendar="@ =~= seq!['\n'] + Seq::<char>::empty() + seq!['\n'] + "[Timer]"@
        + seq!['\n'] + "OnCalendar"@ + seq!['=']);
    assert("\nPersistent=true\nUnit="@ =~= seq!['\n'] + "Persistent"@ + seq!['='] + "true"@ + seq!['\n']
        + "Unit"@ + seq!['=']);
    assert(".service\n\n[Install]\nWantedBy=timers.target\n"@ =~= ".service"@ + seq!['\n']
        + Seq::<char>::empty() + seq!['\n'] + "[Install]"@ + seq!['\n'] + "WantedBy"@ + seq!['=']
        + "timers.target"@ + seq!['\n']);
}

/// How the pieces of a `.timer` file join up.
proof fn lemma_timer_join(
    m: Seq<char>,
    l1: Seq<char>,
    name: Seq<char>,
    sch: Seq<char>,
    x2: Seq<char>,
    x3: Seq<char>,
    sv: Seq<char>,
    p4: Seq<char>,
)
    ensures
        (m + l1 + name + seq!['\n']) + (x2 + sch + seq!['\n']) + (x3 + name + sv + seq!['\n']) + p4
            == m + l1 + name + (seq!['\n'] + x2) + sch + (seq!['\n'] + x3) + name + (sv + seq!['\n']
            + p4),
{
    assert((m + l1 + name + seq!['\n']) + (x2 + sch + seq!['\n']) + (x3 + name + sv + seq!['\n']) + p4
        =~= m + l1 + name + (seq!['\n'] + x2) + sch + (seq!['\n'] + x3) + name + (sv + seq!['\n'] + p4));
}

proof fn lemma_timer_text_lines(name: Seq<char>, schedule: Seq<char>)
    ensures
        timer_text(name, schedule) == concat_lines(timer_lines(name, schedule)),
{
    let nl = seq!['\n'];
    let e = Seq::<char>::empty();
    lemma_timer_shape(name, schedule);
    lemma_timer_words();
    let x2 = e + nl + "[Timer]"@ + nl + "OnCalendar"@ + seq!['='];
    let x3 = "Persistent"@ + seq!['='] + "true"@ + nl + "Unit"@ + seq!['='];
    let p4 = e + nl + "[Install]"@ + nl + ("WantedBy"@ + seq!['='] + "timers.target"@) + nl;
    assert(managed_marker() + nl + "[Unit]"@ + nl + ("Description"@ + seq!['='] + "Timer for "@ + name)
        + nl =~= managed_marker() + "\n[Unit]\nDescription=Timer for "@ + name + nl);
    assert(e + nl + "[Timer]"@ + nl + ("OnCalendar"@ + seq!['='] + schedule) + nl =~= x2 + schedule + nl);
    assert(("Persistent"@ + seq!['='] + "true"@) + nl + ("Unit"@ + seq!['='] + name + ".service"@) + nl
        =~= x3 + name + ".service"@ + nl);
    assert("\n\n[Timer]\nOnCalendar="@ =~= nl + x2);
    assert("\nPersistent=true\nUnit="@ =~= nl + x3);
    assert(".service\n\n[Install]\nWantedBy=timers.target\n"@ =~= ".service"@ + nl + p4);
    lemma_timer_join(
        managed_marker(),
        "\n[Unit]\nDescription=Timer for "@,
        name,
        schedule,
        x2,
        x3,
        ".service"@,
        p4,
    );
}

} // verus!

verus! {

proof fn lemma_kv_no_nl(k: Seq<char>, v: Seq<char>)
    requires
        no_nl(k),
        no_nl(v),
    ensures
        no_nl(k + seq!['='] + v),
{
    let l = k + seq!['='] + v;
    assert forall|j: int| 0 <= j < l.len() implies #[trigger] l[j] != '\n' by {
        if j < k.len() {
            assert(l[j] == k[j]);
        } else if j > k.len() {
            assert(l[j] == v[j - k.len() - 1]);
        }
    }
}

proof fn lemma_service_read(d: Seq<char>, c: Seq<char>, wd: Option<Seq<char>>)
    requires
        no_nl(d),
        no_nl(c),
        match wd {
            Some(w) => no_nl(w),
            None => true,
        },
    ensures
        lines(service_text(d, c, wd)) == service_lines(d, c, wd).map_values(
            |r: Seq<char>| strip_cr(r),
        ),
{
    lemma_unit_words();
    let sl = service_lines(d, c, wd);
    lemma_service_text_lines(d, c, wd);
    lemma_kv_no_nl("Description"@, d);
    lemma_kv_no_nl("ExecStart"@, c);
    lemma_kv_no_nl("Type"@, "oneshot"@);
    lemma_kv_no_nl("WantedBy"@, "default.target"@);
    match wd {
        Some(w) => {
            lemma_kv_no_nl("WorkingDirectory"@, w);
        },
        None => {},
    }
    assert forall|i: int| 0 <= i < sl.len() implies no_nl(#[trigger] sl[i]) by {
        if i == 7 && wd is Some {
            assert(sl[i] == "WorkingDirectory"@ + seq!['='] + wd.unwrap());
        }
    }
    lemma_lines_concat_cr(sl);
}

proof fn lemma_read_description(d: Seq<char>, c: Seq<char>, wd: Option<Seq<char>>)
    requires
        no_nl(d),
        no_nl(c),
        match wd {
            Some(w) => no_nl(w),
            None => true,
        },
    ensures
        grep_value_spec(service_text(d, c, wd), "Description"@) == Some(trim(d)),
{
    lemma_unit_words();
    lemma_service_read(d, c, wd);
    let ls = service_lines(d, c, wd).map_values(|r: Seq<char>| strip_cr(r));
    let key = "Description"@;
    lemma_plain_line(managed_marker(), key);
    lemma_plain_line("[Unit]"@, key);
    lemma_kv_line(key, d, key);
    assert(ls[0] == strip_cr(managed_marker()));
    assert(ls[1] == strip_cr("[Unit]"@));
    assert(ls[2] == strip_cr(key + seq!['='] + d));
    lemma_first_value(ls, key, 2);
    assert(ls.skip(2)[0] == ls[2]);
}

proof fn lemma_read_exec(d: Seq<char>, c: Seq<char>, wd: Option<Seq<char>>)
    requires
        no_nl(d),
        no_nl(c),
        match wd {
            Some(w) => no_nl(w),
            None => true,
        },
    ensures
        grep_value_spec(service_text(d, c, wd), "ExecStart"@) == Some(trim(c)),
{
    lemma_unit_words();
    lemma_service_read(d, c, wd);
    let ls = service_lines(d, c, wd).map_values(|r: Seq<char>| strip_cr(r));
    let key = "ExecStart"@;
    assert(ls[0] == strip_cr(managed_marker()));
    assert(ls[1] == strip_cr("[Unit]"@));
    assert(ls[2] == strip_cr("Description"@ + seq!['='] + d));
    assert(ls[3] == strip_cr(seq![]));
    assert(ls[4] == strip_cr("[Service]"@));
    assert(ls[5] == strip_cr("Type"@ + seq!['='] + "oneshot"@));
    assert(ls[6] == strip_cr(key + seq!['='] + c));
    lemma_plain_line(managed_marker(), key);
    lemma_plain_line("[Unit]"@, key);
    lemma_kv_line("Description"@, d, key);
    lemma_ic_len("Description"@, key);
    lemma_plain_line(seq![], key);
    lemma_plain_line("[Service]"@, key);
    lemma_kv_line("Type"@, "oneshot"@, key);
    lemma_ic_len("Type"@, key);
    lemma_kv_line(key, c, key);
    lemma_first_value(ls, key, 6);
    assert(ls.skip(6)[0] == ls[6]);
}

proof fn lemma_read_wd(d: Seq<char>, c: Seq<char>, wd: Option<Seq<char>>)
    requires
        no_nl(d),
        no_nl(c),
        match wd {
            Some(w) => no_nl(w),
            None => true,
        },
    ensures
        grep_value_spec(service_text(d, c, wd), "WorkingDirectory"@) == match wd {
            Some(w) => Some(trim(w)),
            None => None,
        },
{
    lemma_unit_words();
    lemma_service_read(d, c, wd);
    let ls = service_lines(d, c, wd).map_values(|r: Seq<char>| strip_cr(r));
    let key = "WorkingDirectory"@;
    assert(ls[0] == strip_cr(managed_marker()));
    assert(ls[1] == strip_cr("[Unit]"@));
    assert(ls[2] == strip_cr("Description"@ + seq!['='] + d));
    assert(ls[3] == strip_cr(seq![]));
    assert(ls[4] == strip_cr("[Service]"@));
    assert(ls[5] == strip_cr("Type"@ + seq!['='] + "oneshot"@));
    assert(ls[6] == strip_cr("ExecStart"@ + seq!['='] + c));
    lemma_plain_line(managed_marker(), key);
    lemma_plain_line("[Unit]"@, key);
    lemma_kv_line("Description"@, d, key);
    lemma_ic_len("Description"@, key);
    lemma_plain_line(seq![], key);
    lemma_plain_line("[Service]"@, key);
    lemma_kv_line("Type"@, "oneshot"@, key);
    lemma_ic_len("Type"@, key);
    lemma_kv_line("ExecStart"@, c, key);
    lemma_ic_len("ExecStart"@, key);
    match wd {
        Some(w) => {
            assert(ls[7] == strip_cr(key + seq!['='] + w));
            lemma_kv_line(key, w, key);
            lemma_first_value(ls, key, 7);
            assert(ls.skip(7)[0] == ls[7]);
        },
        None => {
            assert(ls.len() == 10);
            assert(ls[7] == strip_cr(seq![]));
            assert(ls[8] == strip_cr("[Install]"@));
            assert(ls[9] == strip_cr("WantedBy"@ + seq!['='] + "default.target"@));
            lemma_plain_line("[Install]"@, key);
            lemma_kv_line("WantedBy"@, "default.target"@, key);
            lemma_ic_len("WantedBy"@, key);
            lemma_first_value(ls, key, 10);
            assert(ls.skip(10) =~= Seq::<Seq<char>>::empty());
        },
    }
}

proof fn lemma_read_calendar(name: Seq<char>, schedule: Seq<char>)
    requires
        no_nl(name),
        no_nl(schedule),
    ensures
        grep_value_spec(timer_text(name, schedule), "OnCalendar"@) == Some(trim(schedule)),
{
    lemma_unit_words();
    let tl = timer_lines(name, schedule);
    lemma_timer_text_lines(name, schedule);
    let tdv = "Timer for "@ + name;
    assert(no_nl(tdv)) by {
        assert forall|j: int| 0 <= j < tdv.len() implies #[trigger] tdv[j] != '\n' by {
            if j >= 10 {
                assert(tdv[j] == name[j - 10]);
            }
        }
    }
    let nsv = name + ".service"@;
    assert(no_nl(nsv)) by {
        assert forall|j: int| 0 <= j < nsv.len() implies #[trigger] nsv[j] != '\n' by {
            if j < name.len() {
                assert(nsv[j] == name[j]);
            }
        }
    }
    lemma_kv_no_nl("Description"@, tdv);
    lemma_kv_no_nl("OnCalendar"@, schedule);
    lemma_kv_no_nl("Persistent"@, "true"@);
    lemma_kv_no_nl("Unit"@, nsv);
    lemma_kv_no_nl("WantedBy"@, "timers.target"@);
    assert(tl[2] =~= "Description"@ + seq!['='] + tdv);
    assert(tl[7] =~= "Unit"@ + seq!['='] + nsv);
    assert forall|i: int| 0 <= i < tl.len() implies no_nl(#[trigger] tl[i]) by {}
    lemma_lines_concat_cr(tl);
    let lt = tl.map_values(|r: Seq<char>| strip_cr(r));
    let key = "OnCalendar"@;
    assert(lt[0] == strip_cr(managed_marker()));
    assert(lt[1] == strip_cr("[Unit]"@));
    assert(lt[2] == strip_cr("Description"@ + seq!['='] + tdv));
    assert(lt[3] == strip_cr(seq![]));
    assert(lt[4] == strip_cr("[Timer]"@));
    assert(lt[5] == strip_cr(key + seq!['='] + schedule));
    lemma_plain_line(managed_marker(), key);
    lemma_plain_line("[Unit]"@, key);
    lemma_kv_line("Description"@, tdv, key);
    lemma_ic_len("Description"@, key);
    lemma_plain_line(seq![], key);
    lemma_plain_line("[Timer]"@, key);
    lemma_kv_line(key, schedule, key);
    lemma_first_value(lt, key, 5);
    assert(lt.skip(5)[0] == lt[5]);
}

/// A timer written by this library reads back as written: the unit files'
/// `Description=`, `ExecStart=`, `WorkingDirectory=` and `OnCalendar=` give
/// the (trimmed) values they were written with, and both files carry the
/// managed marker. Values with a newline are left out: a newline would
/// start another line of the file.
pub proof fn law_units_read_back(
    name: Seq<char>,
    description: Seq<char>,
    schedule: Seq<char>,
    command: Seq<char>,
    wd: Option<Seq<char>>,
)
    requires
        no_nl(name),
        no_nl(description),
        no_nl(schedule),
        no_nl(command),
        match wd {
            Some(w) => no_nl(w),
            None => true,
        },
    ensures
        grep_value_spec(service_text(description, command, wd), "Description"@) == Some(
            trim(description),
        ),
        grep_value_spec(service_text(description, command, wd), "ExecStart"@) == Some(
            trim(command),
        ),
        grep_value_spec(service_text(description, command, wd), "WorkingDirectory"@) == match wd {
            Some(w) => Some(trim(w)),
            None => None,
        },
        grep_value_spec(timer_text(name, schedule), "OnCalendar"@) == Some(trim(schedule)),
        contains(service_text(description, command, wd), managed_marker()),
        contains(timer_text(name, schedule), managed_marker()),
{
    lemma_read_description(description, command, wd);
    lemma_read_exec(description, command, wd);
    lemma_read_wd(description, command, wd);
    lemma_read_calendar(name, schedule);
    let m = managed_marker();
    let st = service_text(description, command, wd);
    let tt = timer_text(name, schedule);
    assert(st.subrange(0, m.len() as int) =~= m);
    assert(occurs_at(st, m, 0));
    assert(tt.subrange(0, m.len() as int) =~= m);
    assert(occurs_at(tt, m, 0));
}

/// Units without the managed marker are never modified or removed: updating
/// or removing a timer gets past its checks only when the name is valid and
/// both unit files exist and carry the marker.
pub proof fn law_only_managed_units_change(
    name: Seq<char>,
    timer_path: Seq<char>,
    timer_body: Option<Seq<char>>,
    service_path: Seq<char>,
    service_body: Option<Seq<char>>,
)
    ensures
        managed_check_spec(name, timer_path, timer_body, service_path, service_body) is Ok <==> {
            &&& validate_name_spec(name) is Ok
            &&& timer_body matches Some(t) && contains(t, managed_marker())
            &&& service_body matches Some(s) && contains(s, managed_marker())
        },
{
}

} // verus!

verus! {

/// A valid unit name stays inside the unit directory: it has no `/` and does
/// not start with `.` (so it is neither `.` nor `..`), nor with `-` (so it is
/// never read as an option).
pub proof fn law_valid_names_are_plain_file_names(name: Seq<char>)
    requires
        validate_name_spec(name) is Ok,
    ensures
        forall|i: int| 0 <= i < name.len() ==> #[trigger] name[i] != '/',
        name.len() > 0,
        name[0] != '.',
        name[0] != '-',
{
    assert forall|i: int| 0 <= i < name.len() implies #[trigger] name[i] != '/' by {
        assert(is_name_char(name[i]));
    }
}

/// The `systemctl` plans follow the enable flag: without it, creating or
/// updating a timer only reloads the unit files; with it, creating also
/// enables and starts `<name>.timer`, and updating also restarts it. No
/// other unit is touched and nothing else is run.
pub proof fn law_plans_follow_enable(name: Seq<char>)
    ensures
        create_commands(name, false) == seq![seq!["--user"@, "daemon-reload"@]],
        update_commands(name, false) == seq![seq!["--user"@, "daemon-reload"@]],
        create_commands(name, true) == seq![
            seq!["--user"@, "daemon-reload"@],
            seq!["--user"@, "enable"@, "--now"@, name + ".timer"@],
        ],
        update_commands(name, true) == seq![
            seq!["--user"@, "daemon-reload"@],
            seq!["--user"@, "restart"@, name + ".timer"@],
        ],
        create_commands(name, true).drop_last() == create_commands(name, false),
        update_commands(name, true).drop_last() == update_commands(name, false),
{
    assert(create_commands(name, false) =~= seq![seq!["--user"@, "daemon-reload"@]]);
    assert(update_commands(name, false) =~= seq![seq!["--user"@, "daemon-reload"@]]);
    assert(create_commands(name, true) =~= seq![
        seq!["--user"@, "daemon-reload"@],
        seq!["--user"@, "enable"@, "--now"@, name + ".timer"@],
    ]);
    assert(update_commands(name, true) =~= seq![
        seq!["--user"@, "daemon-reload"@],
        seq!["--user"@, "restart"@, name + ".timer"@],
    ]);
    assert(create_commands(name, true).drop_last() =~= create_commands(name, false));
    assert(update_commands(name, true).drop_last() =~= update_commands(name, false));
}

} // verus!
