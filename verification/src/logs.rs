//! Reading the journal: the `journalctl` arguments for a source, the lines
//! of a snapshot, and the table of running tails.
//!
//! Sources:
//!   - a systemd --user unit: `journalctl --user -u <unit>`
//!   - user cron: `journalctl --user-unit=cron* -t CRON`
use vstd::prelude::*;
use crate::error::{AppError, AppErrorModel, command_line, strings_view};
use crate::text::{decimal, lines, owned, push_decimal, push_str, split_lines, spans_text, spans_within, string_of, to_chars};

verus! {

/// Where log lines come from.
#[derive(Debug)]
pub enum LogSource {
    /// A specific systemd --user unit, e.g. `backup-home.service`.
    Unit { unit: String },
    /// Cron output across all user-cron-related units.
    UserCron,
}

/// A one-shot fetch of the most recent `lines` journal lines.
#[derive(Debug)]
pub struct FetchSpec {
    pub source: LogSource,
    pub lines: u32,
}

/// A live tail, known by `id`.
#[derive(Debug)]
pub struct TailSpec {
    pub id: String,
    pub source: LogSource,
    pub lines: u32,
}

/// The `journalctl` arguments for a source.
pub open spec fn build_args_spec(source: LogSource, lines: u32, follow: bool) -> Seq<Seq<char>> {
    seq!["--user"@, "--no-pager"@, "--output=short-iso"@, "--lines="@ + decimal(lines as nat)]
        + (if follow {
        seq!["--follow"@]
    } else {
        seq![]
    }) + match source {
        LogSource::Unit { unit } => seq!["-u"@, unit@],
        LogSource::UserCron => seq!["--user-unit=cron*"@, "-t"@, "CRON"@],
    }
}

fn push_arg(v: &mut Vec<String>, s: String)
    ensures
        strings_view(final(v)@) == strings_view(old(v)@).push(s@),
{
    v.push(s);
    proof {
        assert(strings_view(final(v)@) =~= strings_view(old(v)@).push(s@));
    }
}

/// The `journalctl` arguments for the last `lines` lines of `source`,
/// followed live when `follow` is set.
pub fn build_args(source: &LogSource, lines: u32, follow: bool) -> (a: Vec<String>)
    ensures
        strings_view(a@) == build_args_spec(*source, lines, follow),
{
    let mut a: Vec<String> = Vec::new();
    push_arg(&mut a, owned("--user"));
    push_arg(&mut a, owned("--no-pager"));
    push_arg(&mut a, owned("--output=short-iso"));
    let mut l = owned("--lines=");
    push_decimal(&mut l, lines as u64);
    push_arg(&mut a, l);
    if follow {
        push_arg(&mut a, owned("--follow"));
    }
    match source {
        LogSource::Unit { unit } => {
            push_arg(&mut a, owned("-u"));
            push_arg(&mut a, unit.clone());
        },
        LogSource::UserCron => {
            push_arg(&mut a, owned("--user-unit=cron*"));
            push_arg(&mut a, owned("-t"));
            push_arg(&mut a, owned("CRON"));
        },
    }
    proof {
        assert(strings_view(a@) =~= build_args_spec(*source, lines, follow));
    }
    a
}

/// The outcome of running an external command: whether it succeeded, its
/// exit code, and its output as text.
#[derive(Debug)]
pub struct CommandOutput {
    pub success: bool,
    pub code: Option<i32>,
    pub stdout: String,
    pub stderr: String,
}

/// What [`fetch_logs`] returns for the output of `journalctl args`.
pub open spec fn fetch_logs_spec(args: Seq<Seq<char>>, out: CommandOutput) -> Result<
    Seq<Seq<char>>,
    AppErrorModel,
> {
    if !out.success {
        Err(
            AppErrorModel::Command {
                cmd: command_line("journalctl"@, args),
                code: out.code,
                stderr: out.stderr@,
            },
        )
    } else {
        Ok(lines(out.stdout@))
    }
}

/// The journal lines in the output of `journalctl args`, or the failure of
/// the command.
pub fn fetch_logs(args: &Vec<String>, out: CommandOutput) -> (r: Result<Vec<String>, AppError>)
    ensures
        match r {
            Ok(ls) => fetch_logs_spec(strings_view(args@), out) == Ok::<
                Seq<Seq<char>>,
                AppErrorModel,
            >(strings_view(ls@)),
            Err(e) => fetch_logs_spec(strings_view(args@), out) == Err::<
                Seq<Seq<char>>,
                AppErrorModel,
            >(e@),
        },
{
    if !out.success {
        return Err(AppError::command("journalctl", args, out.code, out.stderr));
    }
    let v = to_chars(out.stdout.as_str());
    let spans = split_lines(&v, 0, v.len());
    proof {
        assert(v@.subrange(0, v@.len() as int) =~= v@);
    }
    let mut ls: Vec<String> = Vec::new();
    let mut k: usize = 0;
    while k < spans.len()
        invariant
            k <= spans@.len(),
            spans_within(spans@, 0, v@.len() as int),
            strings_view(ls@) == spans_text(v@, spans@).take(k as int),
        decreases spans@.len() - k,
    {
        let (a, b) = spans[k];
        let s = string_of(&v, a, b);
        let ghost prev = ls@;
        ls.push(s);
        proof {
            assert(strings_view(ls@) =~= strings_view(prev).push(s@));
            assert(spans_text(v@, spans@)[k as int] == v@.subrange(a as int, b as int));
            assert(spans_text(v@, spans@).take(k + 1) =~= spans_text(v@, spans@).take(k as int).push(
                v@.subrange(a as int, b as int),
            ));
            assert(strings_view(ls@) =~= spans_text(v@, spans@).take(k + 1));
        }
        k = k + 1;
    }
    proof {
        assert(spans_text(v@, spans@).take(spans@.len() as int) =~= spans_text(v@, spans@));
    }
    Ok(ls)
}

/// The event that carries each line of tail `id`.
pub fn line_event(id: &str) -> (s: String)
    ensures
        s@ == "log:line:"@ + id@,
{
    let mut s = owned("log:line:");
    push_str(&mut s, id);
    s
}

/// The event that marks the end of tail `id`.
pub fn end_event(id: &str) -> (s: String)
    ensures
        s@ == "log:end:"@ + id@,
{
    let mut s = owned("log:end:");
    push_str(&mut s, id);
    s
}

/// What taking the tail `id` out of a table holding `before` gives: the
/// process of the first entry with that id, the table then holding the
/// other entries in order; or nothing, the table unchanged, when no entry
/// has that id.
pub open spec fn take_post<C>(before: Seq<(Seq<char>, C)>, id: Seq<char>, c: Option<C>, after: Seq<(Seq<char>, C)>) -> bool {
    match c {
        Some(ch) => exists|i: int|
            0 <= i < before.len() && before[i] == (id, ch) && (forall|j: int|
                0 <= j < i ==> (#[trigger] before[j]).0 != id) && after == before.remove(i),
        None => {
            &&& forall|i: int| 0 <= i < before.len() ==> (#[trigger] before[i]).0 != id
            &&& after == before
        },
    }
}

/// Following only adds `--follow`: for every source and line count, the
/// arguments of a live tail are those of a snapshot with `--follow` put in
/// after the line count, and a snapshot's arguments carry no `--follow`
/// among their options.
pub proof fn law_follow_adds_only_follow(source: LogSource, lines: u32)
    ensures
        build_args_spec(source, lines, true) == build_args_spec(source, lines, false).insert(
            4,
            "--follow"@,
        ),
        build_args_spec(source, lines, true)[4] == "--follow"@,
        build_args_spec(source, lines, false).take(5) == seq![
            "--user"@,
            "--no-pager"@,
            "--output=short-iso"@,
            "--lines="@ + decimal(lines as nat),
            match source {
                LogSource::Unit { .. } => "-u"@,
                LogSource::UserCron => "--user-unit=cron*"@,
            },
        ],
        !build_args_spec(source, lines, false).take(5).contains("--follow"@),
{
    reveal_strlit("--follow");
    reveal_strlit("--user");
    reveal_strlit("--no-pager");
    reveal_strlit("--output=short-iso");
    reveal_strlit("--lines=");
    reveal_strlit("-u");
    reveal_strlit("--user-unit=cron*");
    let a = build_args_spec(source, lines, false);
    assert(build_args_spec(source, lines, true) =~= a.insert(4, "--follow"@));
    let h = a.take(5);
    assert(h =~= seq![
        "--user"@,
        "--no-pager"@,
        "--output=short-iso"@,
        "--lines="@ + decimal(lines as nat),
        match source {
            LogSource::Unit { .. } => "-u"@,
            LogSource::UserCron => "--user-unit=cron*"@,
        },
    ]);
    assert forall|j: int| 0 <= j < h.len() implies h[j] != "--follow"@ by {
        if j == 3 {
            assert(h[j][2] != "--follow"@[2]);
        } else if j == 0 {
            assert(h[j].len() != "--follow"@.len() || h[j][2] != "--follow"@[2]);
        } else {
            assert(h[j].len() != "--follow"@.len() || h[j][2] != "--follow"@[2]);
        }
    }
}

/// A tail that was recorded under a fresh id is found again: taking that id
/// gives back its process and leaves the table as it was before.
pub proof fn law_take_after_push<C>(
    before: Seq<(Seq<char>, C)>,
    id: Seq<char>,
    child: C,
    c: Option<C>,
    after: Seq<(Seq<char>, C)>,
)
    requires
        forall|i: int| 0 <= i < before.len() ==> (#[trigger] before[i]).0 != id,
        take_post(before.push((id, child)), id, c, after),
    ensures
        c == Some(child),
        after == before,
{
    let s = before.push((id, child));
    match c {
        Some(ch) => {
            let i = choose|i: int|
                0 <= i < s.len() && s[i] == (id, ch) && (forall|j: int|
                    0 <= j < i ==> (#[trigger] s[j]).0 != id) && after == s.remove(i);
            if i < before.len() {
                assert(s[i] == before[i]);
            }
            assert(i == before.len());
            assert(s.remove(i) =~= before);
        },
        None => {
            assert(s[before.len() as int].0 == id);
        },
    }
}

/// The running tails, each known by an id, in the order they started.
pub struct TailTable<C> {
    entries: Vec<(String, C)>,
}

impl<C> TailTable<C> {
    /// The ids and processes, in order.
    pub closed spec fn view(&self) -> Seq<(Seq<char>, C)> {
        self.entries@.map_values(|e: (String, C)| (e.0@, e.1))
    }

    /// An empty table.
    pub fn new() -> (t: Self)
        ensures
            t.view() == Seq::<(Seq<char>, C)>::empty(),
    {
        let t = TailTable { entries: Vec::new() };
        proof {
            assert(t.view() =~= Seq::<(Seq<char>, C)>::empty());
        }
        t
    }

    /// Records a started tail.
    pub fn push(&mut self, id: String, child: C)
        ensures
            final(self).view() == old(self).view().push((id@, child)),
    {
        let ghost id_v = id@;
        self.entries.push((id, child));
        proof {
            assert(final(self).view() =~= old(self).view().push((id_v, child)));
        }
    }

    /// Takes out the first tail with the given id, if there is one.
    pub fn take(&mut self, id: &String) -> (c: Option<C>)
        ensures
            take_post(old(self).view(), id@, c, final(self).view()),
    {
        let ghost before = self.view();
        let mut k: usize = 0;
        while k < self.entries.len()
            invariant
                k <= self.entries@.len(),
                self.view() == before,
                before == old(self).view(),
                forall|j: int| 0 <= j < k ==> (#[trigger] before[j]).0 != id@,
            decreases self.entries@.len() - k,
        {
            if self.entries[k].0 == *id {
                proof {
                    assert(before[k as int].0 == self.entries@[k as int].0@);
                }
                let (_, ch) = self.entries.remove(k);
                proof {
                    assert(self.view() =~= before.remove(k as int));
                    assert(before[k as int] == (id@, ch));
                    let i = k as int;
                    assert(0 <= i < before.len() && before[i] == (id@, ch) && (forall|j: int|
                        0 <= j < i ==> (#[trigger] before[j]).0 != id@) && self.view()
                        == before.remove(i));
                }
                return Some(ch);
            }
            proof {
                assert(before[k as int].0 == self.entries@[k as int].0@);
            }
            k = k + 1;
        }
        None
    }
}

} // verus!
