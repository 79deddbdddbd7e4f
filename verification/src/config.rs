//! Configuration: the server, the credentials and the project-to-calendar mapping, with the
//! checks made on a loaded configuration.
use vstd::prelude::*;
use vstd::string::StringExecFns;
use crate::error::CaldaWarriorError;
use crate::text::{push_char, str_eq};
use crate::trusted::str_debug;

verus! {

/// One calendar collection and the TaskWarrior project it holds.
#[derive(Debug)]
pub struct CalendarEntry {
    pub project: String,
    pub url: String,
}

/// The configuration of a sync run.
#[derive(Debug)]
pub struct Config {
    pub server_url: String,
    pub username: String,
    pub password: String,
    pub completed_cutoff_days: u32,
    pub allow_insecure_tls: bool,
    pub caldav_timeout_seconds: u64,
    pub calendars: Vec<CalendarEntry>,
}

/// View of a calendar entry: (project, url).
pub open spec fn calendars_view(cs: Seq<CalendarEntry>) -> Seq<(Seq<char>, Seq<char>)> {
    cs.map_values(|c: CalendarEntry| (c.project@, c.url@))
}

/// Completed and deleted tasks older than this many days are not pushed.
pub fn default_completed_cutoff_days() -> (d: u32)
    ensures
        d == 90,
{
    90
}

/// CalDAV request timeout when the configuration gives none.
pub fn default_caldav_timeout_seconds() -> (s: u64)
    ensures
        s == 30,
{
    30
}

/// The URLs of the calendars whose project is not `default`, in order.
pub open spec fn non_default_urls(cs: Seq<(Seq<char>, Seq<char>)>) -> Seq<Seq<char>>
    decreases cs.len(),
{
    if cs.len() == 0 {
        Seq::empty()
    } else {
        let prev = non_default_urls(cs.drop_last());
        if cs.last().0 == "default"@ {
            prev
        } else {
            prev.push(cs.last().1)
        }
    }
}

/// The first URL that repeats an earlier one.
pub open spec fn first_duplicate(urls: Seq<Seq<char>>) -> Option<Seq<char>>
    decreases urls.len(),
{
    if urls.len() == 0 {
        None
    } else {
        match first_duplicate(urls.drop_last()) {
            Some(u) => Some(u),
            None => if urls.drop_last().contains(urls.last()) {
                Some(urls.last())
            } else {
                None
            },
        }
    }
}

/// `validate`: two calendars of projects other than `default` may not share a URL.
pub fn validate(config: &Config) -> (r: Result<(), CaldaWarriorError>)
    ensures
        match first_duplicate(non_default_urls(calendars_view(config.calendars@))) {
            None => r is Ok,
            Some(u) => r matches Err(CaldaWarriorError::Config(m)) && m@ == "Duplicate calendar URL found: "@ + u,
        },
{
    let ghost cs = calendars_view(config.calendars@);
    let mut seen: Vec<&str> = Vec::new();
    let mut i: usize = 0;
    assert(cs.take(0) =~= Seq::<(Seq<char>, Seq<char>)>::empty());
    while i < config.calendars.len()
        invariant
            i <= config.calendars.len(),
            cs == calendars_view(config.calendars@),
            seen@.map_values(|s: &str| s@) == non_default_urls(cs.take(i as int)),
            first_duplicate(non_default_urls(cs.take(i as int))) is None,
        decreases config.calendars.len() - i,
    {
        let c = &config.calendars[i];
        assert(cs.take(i + 1).drop_last() =~= cs.take(i as int));
        assert(cs.take(i + 1).last() == (c.project@, c.url@));
        if !str_eq(c.project.as_str(), "default") {
            let ghost urls = seen@.map_values(|s: &str| s@);
            let mut j: usize = 0;
            while j < seen.len()
                invariant
                    j <= seen.len(),
                    i < config.calendars.len(),
                    cs == calendars_view(config.calendars@),
                    urls == seen@.map_values(|s: &str| s@),
                    urls == non_default_urls(cs.take(i as int)),
                    first_duplicate(urls) is None,
                    cs.take(i + 1).drop_last() == cs.take(i as int),
                    cs.take(i + 1).last() == (c.project@, c.url@),
                    c.project@ != "default"@,
                    forall|k: int| 0 <= k < j ==> urls[k] != c.url@,
                decreases seen.len() - j,
            {
                if str_eq(seen[j], c.url.as_str()) {
                    assert(urls[j as int] == c.url@);
                    assert(urls.contains(c.url@));
                    let mut m = String::from_str("Duplicate calendar URL found: ");
                    m.append(c.url.as_str());
                    proof {
                        assert(non_default_urls(cs.take(i + 1)) == urls.push(c.url@));
                        assert(urls.push(c.url@).drop_last() =~= urls);
                        lemma_first_duplicate_prefix(cs, i + 1);
                    }
                    return Err(CaldaWarriorError::Config(m));
                }
                j += 1;
            }
            assert(!urls.contains(c.url@));
            assert(non_default_urls(cs.take(i + 1)) == urls.push(c.url@));
            assert(urls.push(c.url@).drop_last() =~= urls);
            seen.push(c.url.as_str());
            assert(seen@.map_values(|s: &str| s@) =~= urls.push(c.url@));
        }
        i += 1;
    }
    assert(cs.take(config.calendars.len() as int) =~= cs);
    Ok(())
}

proof fn lemma_non_default_prefix(cs: Seq<(Seq<char>, Seq<char>)>, k: int, n: int)
    requires
        0 <= k <= n <= cs.len(),
    ensures
        non_default_urls(cs.take(k)).len() <= non_default_urls(cs.take(n)).len(),
        non_default_urls(cs.take(n)).take(non_default_urls(cs.take(k)).len() as int) == non_default_urls(cs.take(k)),
    decreases n - k,
{
    if k < n {
        lemma_non_default_prefix(cs, k, n - 1);
        assert(cs.take(n).drop_last() =~= cs.take(n - 1));
        let a = non_default_urls(cs.take(k));
        let b = non_default_urls(cs.take(n - 1));
        let c = non_default_urls(cs.take(n));
        if cs[n - 1].0 != "default"@ {
            assert(c =~= b.push(cs[n - 1].1));
            assert(c.take(a.len() as int) =~= b.take(a.len() as int));
        }
    } else {
        let a = non_default_urls(cs.take(k));
        assert(a.take(a.len() as int) =~= a);
    }
}

proof fn lemma_first_duplicate_extend(urls: Seq<Seq<char>>, m: int)
    requires
        0 <= m <= urls.len(),
        first_duplicate(urls.take(m)) is Some,
    ensures
        first_duplicate(urls) == first_duplicate(urls.take(m)),
    decreases urls.len() - m,
{
    if m < urls.len() {
        assert(urls.take(m + 1).drop_last() =~= urls.take(m));
        lemma_first_duplicate_extend(urls, m + 1);
    } else {
        assert(urls.take(m) =~= urls);
    }
}

proof fn lemma_first_duplicate_prefix(cs: Seq<(Seq<char>, Seq<char>)>, n: int)
    requires
        0 <= n <= cs.len(),
        first_duplicate(non_default_urls(cs.take(n))) is Some,
    ensures
        first_duplicate(non_default_urls(cs)) == first_duplicate(non_default_urls(cs.take(n))),
{
    lemma_non_default_prefix(cs, n, cs.len() as int);
    assert(cs.take(cs.len() as int) =~= cs);
    let all = non_default_urls(cs);
    let part = non_default_urls(cs.take(n));
    lemma_first_duplicate_extend(all, part.len() as int);
}

/// Octal digit.
pub open spec fn octal_digit(d: int) -> char {
    (('0' as int) + d) as char
}

/// The permission bits in the four-digit octal form `{:04o}` gives them (they are below
/// `0o1000`).
pub open spec fn octal4(m: int) -> Seq<char> {
    seq!['0', octal_digit(m / 64), octal_digit((m / 8) % 8), octal_digit(m % 8)]
}

/// Whether a config file's mode lets anyone but its owner, or the owner's execute bit,
/// in: any bit of `0o177`.
pub open spec fn too_permissive(mode: u32) -> bool {
    mode & 0o177u32 != 0
}

/// The warning for a config file whose permissions are more open than `0600`.
pub open spec fn permissions_warning(path: Seq<char>, mode: u32) -> Seq<char> {
    "[WARN] Config file "@ + str_debug(path) + " has permissions "@ + octal4((mode & 0o777u32) as int)
        + " \u{2014} recommended: 0600"@
}

fn octal_char(d: u32) -> (c: char)
    requires
        d < 8,
    ensures
        c == octal_digit(d as int),
{
    let b: u8 = 48u8 + (d as u8);
    b as char
}

/// `check_permissions`: the warning to print for a config file with the given mode, when
/// it is more permissive than `0600`.
pub fn check_permissions(path: &str, mode: u32) -> (w: Option<String>)
    ensures
        match w {
            Some(s) => too_permissive(mode) && s@ == permissions_warning(path@, mode),
            None => !too_permissive(mode),
        },
{
    if mode & 0o177u32 == 0 {
        return None;
    }
    let m = mode & 0o777u32;
    assert(m < 512) by (bit_vector)
        requires
            m == mode & 0o777u32,
    ;
    let mut s = String::from_str("[WARN] Config file ");
    let p = crate::trusted::debug_str(path);
    s.append(p.as_str());
    s.append(" has permissions ");
    push_char(&mut s, '0');
    push_char(&mut s, octal_char(m / 64));
    push_char(&mut s, octal_char((m / 8) % 8));
    push_char(&mut s, octal_char(m % 8));
    s.append(" \u{2014} recommended: 0600");
    assert(s@ =~= permissions_warning(path@, mode));
    Some(s)
}

} // verus!
