//! Which Linux desktop environment is running, so that the front end can
//! choose between a tray icon and the taskbar.
use vstd::prelude::*;
use crate::text::{to_chars, lower_chars, lower, until, find_char, eq_at};

verus! {

/// A Linux desktop environment.
#[derive(Debug, Clone, Copy, PartialEq, Eq, Structural)]
pub enum DesktopEnv {
    Xfce,
    Kde,
    Gnome,
    Cinnamon,
    Mate,
    Lxde,
    Lxqt,
    Pantheon,
    Budgie,
    Unity,
    Deepin,
    Unknown,
}

impl DesktopEnv {
    /// Whether the environment ships a working StatusNotifierItem /
    /// AppIndicator host out of the box (GNOME does not).
    pub open spec fn native_tray(self) -> bool {
        match self {
            DesktopEnv::Xfce | DesktopEnv::Kde | DesktopEnv::Cinnamon | DesktopEnv::Mate
            | DesktopEnv::Lxqt | DesktopEnv::Pantheon | DesktopEnv::Budgie | DesktopEnv::Unity
            | DesktopEnv::Deepin => true,
            _ => false,
        }
    }

    /// Whether the environment is known to ship a working tray host.
    pub fn has_native_tray(&self) -> (b: bool)
        ensures
            b == self.native_tray(),
    {
        match self {
            DesktopEnv::Xfce | DesktopEnv::Kde | DesktopEnv::Cinnamon | DesktopEnv::Mate
            | DesktopEnv::Lxqt | DesktopEnv::Pantheon | DesktopEnv::Budgie | DesktopEnv::Unity
            | DesktopEnv::Deepin => true,
            _ => false,
        }
    }
}

/// The environment that one (lower-case) name of `XDG_CURRENT_DESKTOP`
/// stands for.
pub open spec fn env_of_token(t: Seq<char>) -> Option<DesktopEnv> {
    if t == "xfce"@ {
        Some(DesktopEnv::Xfce)
    } else if t == "kde"@ || t == "plasma"@ {
        Some(DesktopEnv::Kde)
    } else if t == "gnome"@ || t == "gnome-classic"@ || t == "gnome-flashback"@ {
        Some(DesktopEnv::Gnome)
    } else if t == "x-cinnamon"@ || t == "cinnamon"@ {
        Some(DesktopEnv::Cinnamon)
    } else if t == "mate"@ {
        Some(DesktopEnv::Mate)
    } else if t == "lxde"@ {
        Some(DesktopEnv::Lxde)
    } else if t == "lxqt"@ {
        Some(DesktopEnv::Lxqt)
    } else if t == "pantheon"@ {
        Some(DesktopEnv::Pantheon)
    } else if t == "budgie"@ || t == "budgie-desktop"@ {
        Some(DesktopEnv::Budgie)
    } else if t == "unity"@ {
        Some(DesktopEnv::Unity)
    } else if t == "deepin"@ {
        Some(DesktopEnv::Deepin)
    } else {
        None
    }
}

/// `str::split(':')`: the fields between colons, empty ones included.
pub open spec fn colon_fields(s: Seq<char>) -> Seq<Seq<char>>
    decreases s.len(),
{
    proof {
        crate::text::lemma_until_bound(s, ':');
    }
    if until(s, ':') >= s.len() {
        seq![s]
    } else {
        seq![s.take(until(s, ':') as int)] + colon_fields(s.skip(until(s, ':') + 1int))
    }
}

/// The environment of the first field that names one.
pub open spec fn first_env(ts: Seq<Seq<char>>) -> DesktopEnv
    decreases ts.len(),
{
    if ts.len() == 0 {
        DesktopEnv::Unknown
    } else {
        match env_of_token(ts[0]) {
            Some(e) => e,
            None => first_env(ts.drop_first()),
        }
    }
}

/// `XDG_CURRENT_DESKTOP` when it is set, else `DESKTOP_SESSION`, else empty.
pub open spec fn desktop_text(xdg: Option<Seq<char>>, session: Option<Seq<char>>) -> Seq<char> {
    match xdg {
        Some(x) => x,
        None => match session {
            Some(s) => s,
            None => seq![],
        },
    }
}

/// `detect`: the first colon-separated name (ASCII case ignored) that names
/// a known environment.
pub open spec fn detect_spec(xdg: Option<Seq<char>>, session: Option<Seq<char>>) -> DesktopEnv {
    first_env(colon_fields(lower(desktop_text(xdg, session))))
}

/// An optional string's value.
pub open spec fn opt_view(o: Option<String>) -> Option<Seq<char>> {
    match o {
        Some(s) => Some(s@),
        None => None,
    }
}

fn env_of_field(v: &[char], lo: usize, hi: usize) -> (r: Option<DesktopEnv>)
    requires
        lo <= hi <= v@.len(),
    ensures
        r == env_of_token(v@.subrange(lo as int, hi as int)),
{
    if eq_at(v, lo, hi, &to_chars("xfce")) {
        Some(DesktopEnv::Xfce)
    } else if eq_at(v, lo, hi, &to_chars("kde")) || eq_at(v, lo, hi, &to_chars("plasma")) {
        Some(DesktopEnv::Kde)
    } else if eq_at(v, lo, hi, &to_chars("gnome")) || eq_at(v, lo, hi, &to_chars("gnome-classic"))
        || eq_at(v, lo, hi, &to_chars("gnome-flashback")) {
        Some(DesktopEnv::Gnome)
    } else if eq_at(v, lo, hi, &to_chars("x-cinnamon")) || eq_at(v, lo, hi, &to_chars("cinnamon")) {
        Some(DesktopEnv::Cinnamon)
    } else if eq_at(v, lo, hi, &to_chars("mate")) {
        Some(DesktopEnv::Mate)
    } else if eq_at(v, lo, hi, &to_chars("lxde")) {
        Some(DesktopEnv::Lxde)
    } else if eq_at(v, lo, hi, &to_chars("lxqt")) {
        Some(DesktopEnv::Lxqt)
    } else if eq_at(v, lo, hi, &to_chars("pantheon")) {
        Some(DesktopEnv::Pantheon)
    } else if eq_at(v, lo, hi, &to_chars("budgie")) || eq_at(v, lo, hi, &to_chars("budgie-desktop")) {
        Some(DesktopEnv::Budgie)
    } else if eq_at(v, lo, hi, &to_chars("unity")) {
        Some(DesktopEnv::Unity)
    } else if eq_at(v, lo, hi, &to_chars("deepin")) {
        Some(DesktopEnv::Deepin)
    } else {
        None
    }
}

/// Detects the desktop environment from the values of the environment
/// variables `XDG_CURRENT_DESKTOP` and `DESKTOP_SESSION` (`None` when unset).
pub fn detect(xdg_current_desktop: &Option<String>, desktop_session: &Option<String>) -> (e: DesktopEnv)
    ensures
        e == detect_spec(opt_view(*xdg_current_desktop), opt_view(*desktop_session)),
{
    let raw: Vec<char> = match xdg_current_desktop {
        Some(x) => to_chars(x.as_str()),
        None => match desktop_session {
            Some(s) => to_chars(s.as_str()),
            None => Vec::new(),
        },
    };
    proof {
        assert(raw@ =~= desktop_text(opt_view(*xdg_current_desktop), opt_view(*desktop_session)));
    }
    let v = lower_chars(&raw, 0, raw.len());
    proof {
        assert(raw@.subrange(0, raw@.len() as int) =~= raw@);
    }
    let n = v.len();
    let mut i: usize = 0;
    proof {
        assert(v@.subrange(0, n as int) =~= v@);
    }
    loop
        invariant
            i <= n == v@.len(),
            v@ == lower(desktop_text(opt_view(*xdg_current_desktop), opt_view(*desktop_session))),
            first_env(colon_fields(v@)) == first_env(colon_fields(v@.subrange(i as int, n as int))),
        decreases n - i,
    {
        let k = find_char(&v, i, n, ':');
        let ghost s = v@.subrange(i as int, n as int);
        proof {
            crate::text::lemma_until_bound(s, ':');
            assert(s.take(k - i) =~= v@.subrange(i as int, k as int));
            if k < n {
                assert(s.skip(k - i + 1) =~= v@.subrange(k + 1, n as int));
            }
        }
        match env_of_field(&v, i, k) {
            Some(e) => {
                return e;
            },
            None => {},
        }
        if k == n {
            proof {
                assert(s =~= v@.subrange(i as int, k as int));
                assert(colon_fields(s) == seq![s]);
                assert(colon_fields(s)[0] == s);
                assert(colon_fields(s).drop_first() =~= Seq::<Seq<char>>::empty());
                assert(first_env(colon_fields(s)) == first_env(Seq::<Seq<char>>::empty()));
            }
            return DesktopEnv::Unknown;
        }
        proof {
            let a = s.take(k - i);
            let b = colon_fields(s.skip(k - i + 1));
            assert(colon_fields(s) == seq![a] + b);
            assert((seq![a] + b)[0] == a);
            assert((seq![a] + b).drop_first() =~= b);
            assert(first_env(colon_fields(s)) == first_env(b));
        }
        i = k + 1;
    }
}

/// What the front end is told about the desktop.
#[derive(Debug)]
pub struct DesktopReport {
    pub env: DesktopEnv,
    pub native_tray: bool,
    pub raw_xdg_current_desktop: String,
    pub session_type: String,
}

impl DesktopReport {
    /// The report for the given values of `XDG_CURRENT_DESKTOP`,
    /// `DESKTOP_SESSION` and `XDG_SESSION_TYPE` (`None` when unset).
    pub fn current(
        xdg_current_desktop: Option<String>,
        desktop_session: Option<String>,
        session_type: Option<String>,
    ) -> (r: DesktopReport)
        ensures
            r.env == detect_spec(opt_view(xdg_current_desktop), opt_view(desktop_session)),
            r.native_tray == r.env.native_tray(),
            r.raw_xdg_current_desktop@ == desktop_text(opt_view(xdg_current_desktop), None),
            r.session_type@ == desktop_text(opt_view(session_type), None),
    {
        let env = detect(&xdg_current_desktop, &desktop_session);
        let native_tray = env.has_native_tray();
        let raw_xdg_current_desktop = match xdg_current_desktop {
            Some(x) => x,
            None => String::new(),
        };
        let session_type = match session_type {
            Some(s) => s,
            None => String::new(),
        };
        DesktopReport { env, native_tray, raw_xdg_current_desktop, session_type }
    }
}

} // verus!
