//! The closed set of auxiliary upstream sources whose latest snapshot is
//! cached, and the per-source configuration.

use vstd::prelude::*;

verus! {

/// One auxiliary source with a cached latest snapshot.
#[derive(Clone, Copy, Debug, PartialEq, Eq, Structural)]
pub enum SourceKind {
    Apod,
    Neo,
    Flr,
    Cme,
    Spacex,
}

/// One independently scheduled ingestion loop.
#[derive(Clone, Copy, Debug, PartialEq, Eq, Structural)]
pub enum ScheduleSource {
    Catalog,
    Telemetry,
    Apod,
    Neo,
    Donki,
    Spacex,
}

/// The source named by a lower-case name, if it is a known one.
pub open spec fn kind_of_name(n: Seq<char>) -> Option<SourceKind> {
    if n == "apod"@ {
        Some(SourceKind::Apod)
    } else if n == "neo"@ {
        Some(SourceKind::Neo)
    } else if n == "flr"@ {
        Some(SourceKind::Flr)
    } else if n == "cme"@ {
        Some(SourceKind::Cme)
    } else if n == "spacex"@ {
        Some(SourceKind::Spacex)
    } else {
        None
    }
}

/// The canonical name of a cached source.
pub open spec fn spec_name(k: SourceKind) -> Seq<char> {
    match k {
        SourceKind::Apod => "apod"@,
        SourceKind::Neo => "neo"@,
        SourceKind::Flr => "flr"@,
        SourceKind::Cme => "cme"@,
        SourceKind::Spacex => "spacex"@,
    }
}

impl SourceKind {
    /// Parses a lower-case source name from the closed set.
    pub fn from_name(n: &str) -> (r: Option<SourceKind>)
        ensures
            r == kind_of_name(n@),
    {
        if crate::json::str_eq(n, "apod") {
            Some(SourceKind::Apod)
        } else if crate::json::str_eq(n, "neo") {
            Some(SourceKind::Neo)
        } else if crate::json::str_eq(n, "flr") {
            Some(SourceKind::Flr)
        } else if crate::json::str_eq(n, "cme") {
            Some(SourceKind::Cme)
        } else if crate::json::str_eq(n, "spacex") {
            Some(SourceKind::Spacex)
        } else {
            None
        }
    }

    /// The canonical name of this source.
    pub fn name(&self) -> (r: &'static str)
        ensures
            r@ == spec_name(*self),
    {
        match self {
            SourceKind::Apod => "apod",
            SourceKind::Neo => "neo",
            SourceKind::Flr => "flr",
            SourceKind::Cme => "cme",
            SourceKind::Spacex => "spacex",
        }
    }
}

/// Service configuration: per-source URLs, one shared API key, and six
/// independent ingestion intervals in seconds.
#[derive(Clone, Debug)]
pub struct Config {
    pub database_url: String,
    pub nasa_api_url: String,
    pub nasa_api_key: String,
    pub where_iss_url: String,
    pub fetch_every_seconds: u64,
    pub iss_every_seconds: u64,
    pub apod_every_seconds: u64,
    pub neo_every_seconds: u64,
    pub donki_every_seconds: u64,
    pub spacex_every_seconds: u64,
}

impl Config {
    /// The ingestion interval, in seconds, for one scheduled loop.
    ///
    /// Each loop sleeps for its own interval after a cycle, whatever
    /// happened to the others.
    pub fn interval_for(&self, s: ScheduleSource) -> (r: u64)
        ensures
            r == match s {
                ScheduleSource::Catalog => self.fetch_every_seconds,
                ScheduleSource::Telemetry => self.iss_every_seconds,
                ScheduleSource::Apod => self.apod_every_seconds,
                ScheduleSource::Neo => self.neo_every_seconds,
                ScheduleSource::Donki => self.donki_every_seconds,
                ScheduleSource::Spacex => self.spacex_every_seconds,
            },
    {
        match s {
            ScheduleSource::Catalog => self.fetch_every_seconds,
            ScheduleSource::Telemetry => self.iss_every_seconds,
            ScheduleSource::Apod => self.apod_every_seconds,
            ScheduleSource::Neo => self.neo_every_seconds,
            ScheduleSource::Donki => self.donki_every_seconds,
            ScheduleSource::Spacex => self.spacex_every_seconds,
        }
    }
}

pub open spec fn is_space(c: char) -> bool {
    c == ' ' || c == '\t' || c == '\n' || c == '\r'
}

/// Lower-cases one ASCII letter, leaving anything else alone.
pub open spec fn ascii_lower(c: char) -> char {
    if c == 'A' {
        'a'
    } else if c == 'B' {
        'b'
    } else if c == 'C' {
        'c'
    } else if c == 'D' {
        'd'
    } else if c == 'E' {
        'e'
    } else if c == 'F' {
        'f'
    } else if c == 'G' {
        'g'
    } else if c == 'H' {
        'h'
    } else if c == 'I' {
        'i'
    } else if c == 'J' {
        'j'
    } else if c == 'K' {
        'k'
    } else if c == 'L' {
        'l'
    } else if c == 'M' {
        'm'
    } else if c == 'N' {
        'n'
    } else if c == 'O' {
        'o'
    } else if c == 'P' {
        'p'
    } else if c == 'Q' {
        'q'
    } else if c == 'R' {
        'r'
    } else if c == 'S' {
        's'
    } else if c == 'T' {
        't'
    } else if c == 'U' {
        'u'
    } else if c == 'V' {
        'v'
    } else if c == 'W' {
        'w'
    } else if c == 'X' {
        'x'
    } else if c == 'Y' {
        'y'
    } else if c == 'Z' {
        'z'
    } else {
        c
    }
}

fn is_space_exec(c: char) -> (r: bool)
    ensures
        r == is_space(c),
{
    c == ' ' || c == '\t' || c == '\n' || c == '\r'
}

fn ascii_lower_exec(c: char) -> (r: char)
    ensures
        r == ascii_lower(c),
{
    if c == 'A' {
        'a'
    } else if c == 'B' {
        'b'
    } else if c == 'C' {
        'c'
    } else if c == 'D' {
        'd'
    } else if c == 'E' {
        'e'
    } else if c == 'F' {
        'f'
    } else if c == 'G' {
        'g'
    } else if c == 'H' {
        'h'
    } else if c == 'I' {
        'i'
    } else if c == 'J' {
        'j'
    } else if c == 'K' {
        'k'
    } else if c == 'L' {
        'l'
    } else if c == 'M' {
        'm'
    } else if c == 'N' {
        'n'
    } else if c == 'O' {
        'o'
    } else if c == 'P' {
        'p'
    } else if c == 'Q' {
        'q'
    } else if c == 'R' {
        'r'
    } else if c == 'S' {
        's'
    } else if c == 'T' {
        't'
    } else if c == 'U' {
        'u'
    } else if c == 'V' {
        'v'
    } else if c == 'W' {
        'w'
    } else if c == 'X' {
        'x'
    } else if c == 'Y' {
        'y'
    } else if c == 'Z' {
        'z'
    } else {
        c
    }
}

pub open spec fn lower_seq(s: Seq<char>) -> Seq<char> {
    s.map_values(|c: char| ascii_lower(c))
}

pub open spec fn lead_spaces(s: Seq<char>) -> int
    decreases s.len(),
{
    if s.len() == 0 || !is_space(s[0]) {
        0
    } else {
        1 + lead_spaces(s.skip(1))
    }
}

pub open spec fn trail_spaces(s: Seq<char>) -> int
    decreases s.len(),
{
    if s.len() == 0 || !is_space(s.last()) {
        0
    } else {
        1 + trail_spaces(s.drop_last())
    }
}

/// The segment without leading and trailing whitespace.
pub open spec fn trimmed(s: Seq<char>) -> Seq<char> {
    let a = lead_spaces(s);
    let b = s.len() - trail_spaces(s);
    if a < b {
        s.subrange(a, b)
    } else {
        Seq::empty()
    }
}

proof fn lemma_lead_spaces(s: Seq<char>)
    ensures
        0 <= lead_spaces(s) <= s.len(),
        forall|k: int| 0 <= k < lead_spaces(s) ==> is_space(#[trigger] s[k]),
        lead_spaces(s) < s.len() ==> !is_space(s[lead_spaces(s)]),
    decreases s.len(),
{
    if s.len() > 0 && is_space(s[0]) {
        lemma_lead_spaces(s.skip(1));
        assert forall|k: int| 0 <= k < lead_spaces(s) implies is_space(#[trigger] s[k]) by {
            if k > 0 {
                assert(s.skip(1)[k - 1] == s[k]);
            }
        }
        if lead_spaces(s) < s.len() {
            assert(s.skip(1)[lead_spaces(s) - 1] == s[lead_spaces(s)]);
        }
    }
}

proof fn lemma_trail_spaces(s: Seq<char>)
    ensures
        0 <= trail_spaces(s) <= s.len(),
        forall|k: int| s.len() - trail_spaces(s) <= k < s.len() ==> is_space(#[trigger] s[k]),
        trail_spaces(s) < s.len() ==> !is_space(s[s.len() - 1 - trail_spaces(s)]),
    decreases s.len(),
{
    if s.len() > 0 && is_space(s.last()) {
        lemma_trail_spaces(s.drop_last());
        assert forall|k: int| s.len() - trail_spaces(s) <= k < s.len() implies is_space(
            #[trigger] s[k],
        ) by {
            if k < s.len() - 1 {
                assert(s.drop_last()[k] == s[k]);
            }
        }
        if trail_spaces(s) < s.len() {
            assert(s.drop_last()[s.len() - 2 - trail_spaces(s.drop_last())] == s[s.len() - 1
                - trail_spaces(s)]);
        }
    }
}

/// Position of the first comma, or -1.
pub open spec fn comma_index(s: Seq<char>) -> int
    decreases s.len(),
{
    if s.len() == 0 {
        -1
    } else if s[0] == ',' {
        0
    } else {
        let r = comma_index(s.skip(1));
        if r == -1 {
            -1
        } else {
            r + 1
        }
    }
}

proof fn lemma_comma_index(s: Seq<char>)
    ensures
        comma_index(s) == -1 ==> forall|i: int| 0 <= i < s.len() ==> s[i] != ',',
        comma_index(s) != -1 ==> 0 <= comma_index(s) < s.len() && s[comma_index(s)] == ','
            && forall|i: int| 0 <= i < comma_index(s) ==> s[i] != ',',
    decreases s.len(),
{
    if s.len() > 0 && s[0] != ',' {
        lemma_comma_index(s.skip(1));
        let r = comma_index(s.skip(1));
        if r == -1 {
            assert forall|i: int| 0 <= i < s.len() implies s[i] != ',' by {
                if i > 0 {
                    assert(s.skip(1)[i - 1] == s[i]);
                }
            }
        } else {
            assert(s.skip(1)[r] == s[r + 1]);
            assert forall|i: int| 0 <= i < r + 1 implies s[i] != ',' by {
                if i > 0 {
                    assert(s.skip(1)[i - 1] == s[i]);
                }
            }
        }
    }
}

pub open spec fn opt_kind_seq(o: Option<SourceKind>) -> Seq<SourceKind> {
    match o {
        Some(k) => seq![k],
        None => Seq::empty(),
    }
}

/// The known sources named by a comma-separated list: each segment is
/// trimmed and lower-cased, unknown names are dropped, order and
/// repetition are kept.
pub open spec fn refresh_kinds(s: Seq<char>) -> Seq<SourceKind>
    decreases s.len(),
{
    let ci = comma_index(s);
    if ci < 0 || ci >= s.len() {
        opt_kind_seq(kind_of_name(lower_seq(trimmed(s))))
    } else {
        opt_kind_seq(kind_of_name(lower_seq(trimmed(s.take(ci))))) + refresh_kinds(s.skip(ci + 1))
    }
}

/// Whether the lower-cased characters of `s[a..b]` spell `name`.
fn seg_eq_name(s: &str, a: usize, b: usize, name: &str) -> (r: bool)
    requires
        a <= b <= s@.len(),
    ensures
        r == (lower_seq(s@.subrange(a as int, b as int)) == name@),
{
    let ghost seg = s@.subrange(a as int, b as int);
    let nl = name.unicode_len();
    if b - a != nl {
        proof {
            assert(lower_seq(seg).len() == b - a);
        }
        return false;
    }
    let mut i: usize = 0;
    while i < nl
        invariant
            i <= nl,
            nl == name@.len(),
            a + nl == b,
            b <= s@.len(),
            seg == s@.subrange(a as int, b as int),
            forall|k: int| 0 <= k < i ==> lower_seq(seg)[k] == name@[k],
        decreases nl - i,
    {
        proof {
            assert(seg[i as int] == s@[a + i]);
            assert(lower_seq(seg)[i as int] == ascii_lower(seg[i as int]));
        }
        if ascii_lower_exec(s.get_char(a + i)) != name.get_char(i) {
            return false;
        }
        i += 1;
    }
    proof {
        assert(lower_seq(seg) =~= name@);
    }
    true
}

/// The source named by the lower-cased characters of `s[a..b]`, if any.
fn seg_kind(s: &str, a: usize, b: usize) -> (r: Option<SourceKind>)
    requires
        a <= b <= s@.len(),
    ensures
        r == kind_of_name(lower_seq(s@.subrange(a as int, b as int))),
{
    if seg_eq_name(s, a, b, "apod") {
        Some(SourceKind::Apod)
    } else if seg_eq_name(s, a, b, "neo") {
        Some(SourceKind::Neo)
    } else if seg_eq_name(s, a, b, "flr") {
        Some(SourceKind::Flr)
    } else if seg_eq_name(s, a, b, "cme") {
        Some(SourceKind::Cme)
    } else if seg_eq_name(s, a, b, "spacex") {
        Some(SourceKind::Spacex)
    } else {
        None
    }
}

/// Parses the comma-separated refresh list into the sources to refresh.
#[verifier::rlimit(60)]
pub fn parse_refresh_list(s: &str) -> (out: Vec<SourceKind>)
    ensures
        out@ == refresh_kinds(s@),
{
    let n = s.unicode_len();
    let mut out: Vec<SourceKind> = Vec::new();
    let mut pos: usize = 0;
    proof {
        assert(s@.skip(0) =~= s@);
    }
    loop
        invariant_except_break
            refresh_kinds(s@) == out@ + refresh_kinds(s@.skip(pos as int)),
        invariant
            pos <= n,
            n == s@.len(),
        ensures
            out@ == refresh_kinds(s@),
        decreases n - pos,
    {
        let ghost rem = s@.skip(pos as int);
        let mut j: usize = pos;
        while j < n && s.get_char(j) != ','
            invariant
                pos <= j <= n,
                n == s@.len(),
                forall|k: int| pos <= k < j ==> s@[k] != ',',
            decreases n - j,
        {
            j += 1;
        }
        proof {
            lemma_comma_index(rem);
            assert forall|i: int| 0 <= i < rem.len() implies rem[i] == s@[i + pos as int] by {}
            if j == n {
                if comma_index(rem) != -1 {
                    assert(rem[comma_index(rem)] == ',');
                }
                assert(comma_index(rem) == -1);
            } else {
                assert(s@[j as int] == ',');
                assert(rem[j - pos as int] == ',');
                assert(comma_index(rem) != -1);
                if comma_index(rem) < j - pos as int {
                    assert(rem[comma_index(rem)] == ',');
                }
                if comma_index(rem) > j - pos as int {
                    assert(rem[j - pos as int] != ',');
                }
                assert(comma_index(rem) == j - pos as int);
            }
        }
        let ghost seg = s@.subrange(pos as int, j as int);
        proof {
            if j == n {
                assert(seg =~= rem);
            } else {
                assert(seg =~= rem.take(j - pos as int));
            }
            assert forall|i: int| 0 <= i < seg.len() implies seg[i] == s@[i + pos as int] by {}
        }
        let mut a: usize = pos;
        while a < j && is_space_exec(s.get_char(a))
            invariant
                pos <= a <= j,
                j <= n,
                n == s@.len(),
                forall|k: int| pos <= k < a ==> is_space(#[trigger] s@[k]),
            decreases j - a,
        {
            a += 1;
        }
        let mut b: usize = j;
        while b > a && is_space_exec(s.get_char(b - 1))
            invariant
                a <= b <= j,
                j <= n,
                n == s@.len(),
                forall|k: int| b <= k < j ==> is_space(#[trigger] s@[k]),
            decreases b,
        {
            b -= 1;
        }
        proof {
            lemma_lead_spaces(seg);
            lemma_trail_spaces(seg);
            let la = lead_spaces(seg);
            let ts = trail_spaces(seg);
            if a == j {
                assert(la == seg.len()) by {
                    if la < seg.len() {
                        assert(is_space(s@[la + pos as int]));
                    }
                }
                assert(b == a);
                assert(ts >= 0);
                assert(trimmed(seg) =~= Seq::<char>::empty());
            } else {
                assert(la == a - pos) by {
                    if la < a - pos as int {
                        assert(is_space(seg[la]));
                        assert(!is_space(seg[la]));
                    }
                    if la > a - pos as int {
                        assert(is_space(seg[a - pos as int]));
                        assert(!is_space(s@[a as int]));
                    }
                }
                assert(b >= a + 1);
                assert(!is_space(s@[b - 1]));
                assert(ts == j - b) by {
                    if ts < j - b as int {
                        assert(is_space(seg[seg.len() - 1 - ts]));
                        assert(!is_space(seg[seg.len() - 1 - ts]));
                    }
                    if ts > j - b as int {
                        assert(is_space(seg[b - 1 - pos as int]));
                        assert(!is_space(s@[b - 1]));
                    }
                }
                assert(trimmed(seg) =~= s@.subrange(a as int, b as int));
            }
        }
        let k = seg_kind(s, a, b);
        proof {
            assert(kind_of_name(lower_seq(s@.subrange(a as int, b as int))) == kind_of_name(
                lower_seq(trimmed(seg)),
            )) by {
                if a == j {
                    assert(s@.subrange(a as int, b as int) =~= trimmed(seg));
                }
            }
        }
        let ghost out_pre = out@;
        match k {
            Some(sk) => {
                out.push(sk);
            },
            None => {},
        }
        proof {
            assert(out@ =~= out_pre + opt_kind_seq(k));
            if j == n {
                assert(seg =~= rem);
                assert(refresh_kinds(rem) == opt_kind_seq(kind_of_name(lower_seq(trimmed(rem)))));
                assert(out@ =~= refresh_kinds(s@));
            } else {
                assert(rem.skip(j - pos as int + 1) =~= s@.skip(j as int + 1));
                assert(refresh_kinds(rem) == opt_kind_seq(k) + refresh_kinds(
                    s@.skip(j as int + 1),
                ));
                assert(refresh_kinds(s@) =~= out@ + refresh_kinds(s@.skip(j as int + 1)));
            }
        }
        if j < n {
            pos = j + 1;
        } else {
            break ;
        }
    }
    out
}

/// The query parameters for one scheduled fetch: the fixed per-source
/// parameters, the date window for the feeds that take one (ending
/// today), and the shared API key exactly when it is non-empty. The
/// telemetry, catalog and launch-schedule sources take none.
pub fn query_params(source: ScheduleSource, api_key: &str, today_day: i64) -> (ps: Vec<
    (String, String),
>)
    requires
        0 <= today_day <= crate::dates::MAX_DAY_NUMBER,
    ensures
        match source {
            ScheduleSource::Catalog => ps@.len() == 0,
            ScheduleSource::Telemetry => ps@.len() == 0,
            ScheduleSource::Spacex => ps@.len() == 0,
            ScheduleSource::Apod => {
                &&& ps@.len() == (if api_key@.len() > 0 {
                    2int
                } else {
                    1int
                })
                &&& ps@[0].0@ == "thumbs"@ && ps@[0].1@ == "true"@
                &&& api_key@.len() > 0 ==> ps@[1].0@ == "api_key"@ && ps@[1].1@ == api_key@
            },
            ScheduleSource::Neo => {
                &&& ps@.len() == (if api_key@.len() > 0 {
                    3int
                } else {
                    2int
                })
                &&& ps@[0].0@ == "start_date"@ && crate::dates::is_day_chars(
                    ps@[0].1@,
                    today_day - 2,
                )
                &&& ps@[1].0@ == "end_date"@ && crate::dates::is_day_chars(
                    ps@[1].1@,
                    today_day as int,
                )
                &&& api_key@.len() > 0 ==> ps@[2].0@ == "api_key"@ && ps@[2].1@ == api_key@
            },
            ScheduleSource::Donki => {
                &&& ps@.len() == (if api_key@.len() > 0 {
                    3int
                } else {
                    2int
                })
                &&& ps@[0].0@ == "startDate"@ && crate::dates::is_day_chars(
                    ps@[0].1@,
                    today_day - 5,
                )
                &&& ps@[1].0@ == "endDate"@ && crate::dates::is_day_chars(
                    ps@[1].1@,
                    today_day as int,
                )
                &&& api_key@.len() > 0 ==> ps@[2].0@ == "api_key"@ && ps@[2].1@ == api_key@
            },
        },
{
    let mut ps: Vec<(String, String)> = Vec::new();
    match source {
        ScheduleSource::Catalog => {},
        ScheduleSource::Telemetry => {},
        ScheduleSource::Spacex => {},
        ScheduleSource::Apod => {
            ps.push((String::from_str("thumbs"), String::from_str("true")));
            if api_key.unicode_len() > 0 {
                ps.push((String::from_str("api_key"), String::from_str(api_key)));
            }
        },
        ScheduleSource::Neo => {
            ps.push((String::from_str("start_date"), crate::dates::day_string(today_day - 2)));
            ps.push((String::from_str("end_date"), crate::dates::day_string(today_day)));
            if api_key.unicode_len() > 0 {
                ps.push((String::from_str("api_key"), String::from_str(api_key)));
            }
        },
        ScheduleSource::Donki => {
            ps.push((String::from_str("startDate"), crate::dates::day_string(today_day - 5)));
            ps.push((String::from_str("endDate"), crate::dates::day_string(today_day)));
            if api_key.unicode_len() > 0 {
                ps.push((String::from_str("api_key"), String::from_str(api_key)));
            }
        },
    }
    ps
}

/// The documented default configuration: every override is absent.
pub fn default_config() -> (c: Config)
    ensures
        c.database_url@ == Seq::<char>::empty(),
        c.nasa_api_key@ == Seq::<char>::empty(),
        c.fetch_every_seconds == 600,
        c.iss_every_seconds == 120,
        c.apod_every_seconds == 43200,
        c.neo_every_seconds == 7200,
        c.donki_every_seconds == 3600,
        c.spacex_every_seconds == 3600,
{
    Config {
        database_url: String::new(),
        nasa_api_url: String::from_str(
            "https://visualization.osdr.nasa.gov/biodata/api/v2/datasets/?format=json",
        ),
        nasa_api_key: String::new(),
        where_iss_url: String::from_str("https://api.wheretheiss.at/v1/satellites/25544"),
        fetch_every_seconds: 600,
        iss_every_seconds: 120,
        apod_every_seconds: 43200,
        neo_every_seconds: 7200,
        donki_every_seconds: 3600,
        spacex_every_seconds: 3600,
    }
}

} // verus!
