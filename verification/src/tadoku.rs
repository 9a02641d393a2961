//! Tadoku: which contest registrations a log goes to, the session cookie,
//! and the logged amount.
use vstd::prelude::*;
use crate::config::without_trailing_slashes;
use crate::json::{JsonValue, as_str, at, member, member_of, at_key, str_value, value_of};
use crate::text::{
    has_prefix, starts_with_chars, append, append_str, owned,
    trim_start, trim_end, split_from, next_index_of, lemma_next_index_of, lemma_first_index_of,
    chars_of, eq_ignore_case, first_index_of, first_index_of_exec, slice_vec, split_chars,
    split_seq, str_eq_ignore_case, string_of, trim, trim_chars, chars_are,
};

verus! {

/// What the Tadoku connection check reports.
pub struct TadokuConnectionInfo {
    pub user_id: String,
    pub display_name: Option<String>,
    pub listening_activity_id: i32,
    pub listening_minutes_unit_id: String,
}

/// A Tadoku activity.
pub struct Activity {
    pub id: i32,
    pub name: String,
}

/// A Tadoku language.
pub struct Language {
    pub code: String,
}

/// The contest a registration belongs to.
pub struct RegistrationContest {
    pub allowed_activities: Vec<Activity>,
}

/// A registration of the user in a Tadoku contest.
pub struct Registration {
    pub id: String,
    pub languages: Vec<Language>,
    pub contest: Option<RegistrationContest>,
}

/// Whether a registration accepts logs in the language (ASCII case folded)
/// for the activity.
pub open spec fn registration_accepts(r: Registration, language_code: Seq<char>, activity_id: i32) -> bool {
    &&& exists|k: int|
        0 <= k < r.languages@.len() && eq_ignore_case(#[trigger] r.languages@[k].code@, language_code)
    &&& r.contest matches Some(c) && exists|k: int|
        0 <= k < c.allowed_activities@.len() && #[trigger] c.allowed_activities@[k].id == activity_id
}

/// The IDs of the registrations that accept the log, in order.
pub open spec fn eligible_ids(rs: Seq<Registration>, language_code: Seq<char>, activity_id: i32) -> Seq<Seq<char>> {
    rs.filter(|r: Registration| registration_accepts(r, language_code, activity_id)).map_values(
        |r: Registration| r.id@,
    )
}

fn speaks_language(r: &Registration, language_code: &str) -> (b: bool)
    ensures
        b == exists|k: int|
            0 <= k < r.languages@.len() && eq_ignore_case(#[trigger] r.languages@[k].code@, language_code@),
{
    let mut k: usize = 0;
    while k < r.languages.len()
        invariant
            k <= r.languages@.len(),
            forall|j: int| 0 <= j < k ==> !eq_ignore_case(#[trigger] r.languages@[j].code@, language_code@),
        decreases r.languages.len() - k,
    {
        if str_eq_ignore_case(r.languages[k].code.as_str(), language_code) {
            assert(eq_ignore_case(r.languages@[k as int].code@, language_code@));
            return true;
        }
        k += 1;
    }
    false
}

fn accepts_exec(r: &Registration, language_code: &str, activity_id: i32) -> (b: bool)
    ensures
        b == registration_accepts(*r, language_code@, activity_id),
{
    if !speaks_language(r, language_code) {
        return false;
    }
    match &r.contest {
        Some(c) => {
            let mut j: usize = 0;
            while j < c.allowed_activities.len()
                invariant
                    j <= c.allowed_activities@.len(),
                    r.contest == Some(*c),
                    exists|k: int|
                        0 <= k < r.languages@.len() && eq_ignore_case(
                            #[trigger] r.languages@[k].code@,
                            language_code@,
                        ),
                    forall|t: int| 0 <= t < j ==> #[trigger] c.allowed_activities@[t].id != activity_id,
                decreases c.allowed_activities.len() - j,
            {
                if c.allowed_activities[j].id == activity_id {
                    assert(c.allowed_activities@[j as int].id == activity_id);
                    assert(r.contest->0.allowed_activities@[j as int].id == activity_id);
                    return true;
                }
                j += 1;
            }
            false
        },
        None => false,
    }
}

/// The IDs of the registrations that accept a log in the language for the
/// listening activity.
pub fn eligible_registration_ids(
    registrations: &[Registration],
    language_code: &str,
    listening_activity_id: i32,
) -> (r: Vec<String>)
    ensures
        r@.map_values(|s: String| s@) == eligible_ids(registrations@, language_code@, listening_activity_id),
{
    let mut r: Vec<String> = Vec::new();
    let mut k: usize = 0;
    while k < registrations.len()
        invariant
            k <= registrations@.len(),
            r@.map_values(|s: String| s@) == eligible_ids(
                registrations@.take(k as int),
                language_code@,
                listening_activity_id,
            ),
        decreases registrations.len() - k,
    {
        let reg = &registrations[k];
        let ok = accepts_exec(reg, language_code, listening_activity_id);
        proof {
            let t = registrations@.take(k + 1);
            assert(t.drop_last() =~= registrations@.take(k as int));
            assert(t.last() == *reg);
            reveal(Seq::filter);
        }
        let ghost before = r@.map_values(|s: String| s@);
        if ok {
            r.push(reg.id.clone());
            assert(r@.map_values(|s: String| s@) =~= before.push(reg.id@));
            assert(eligible_ids(registrations@.take(k + 1), language_code@, listening_activity_id)
                =~= before.push(reg.id@));
        } else {
            assert(r@.map_values(|s: String| s@) =~= before);
            assert(eligible_ids(registrations@.take(k + 1), language_code@, listening_activity_id)
                =~= before);
        }
        k += 1;
    }
    assert(registrations@.take(registrations@.len() as int) =~= registrations@);
    r
}

// ---------------------------------------------------------------------------
// Session cookie
// ---------------------------------------------------------------------------

/// Why a pasted session cookie is refused.
#[derive(Clone, Copy, Debug, PartialEq, Eq, Structural)]
pub enum CookieError {
    Empty,
    Newline,
}

impl CookieError {
    pub fn message(&self) -> (r: &'static str)
        ensures
            r@ == (match self {
                CookieError::Empty => "Tadoku session cookie is empty"@,
                CookieError::Newline => "Tadoku session cookie contains an invalid newline"@,
            }),
    {
        match self {
            CookieError::Empty => "Tadoku session cookie is empty",
            CookieError::Newline => "Tadoku session cookie contains an invalid newline",
        }
    }
}

/// The session value of one `name=value` part of a cookie header, when the
/// name is `ory_kratos_session` and the value is not empty.
pub open spec fn session_value_of(part: Seq<char>) -> Option<Seq<char>> {
    let t = trim(part);
    match first_index_of(t, '=', 0) {
        None => None,
        Some(e) => if t.take(e) == "ory_kratos_session"@ && t.skip(e + 1).len() > 0 {
            Some(t.skip(e + 1))
        } else {
            None
        },
    }
}

/// The first session value among the `;`-separated parts from `k` on.
pub open spec fn session_value_from(parts: Seq<Seq<char>>, k: int) -> Option<Seq<char>>
    decreases parts.len() - k,
{
    if k < 0 || k >= parts.len() {
        None
    } else if session_value_of(parts[k]) is Some {
        session_value_of(parts[k])
    } else {
        session_value_from(parts, k + 1)
    }
}

/// The session value of a cookie header.
pub open spec fn header_session_value(header: Seq<char>) -> Option<Seq<char>> {
    session_value_from(split_seq(header, ';'), 0)
}

/// What a pasted cookie is read as: trimmed, refused when empty or holding
/// a line break, and taken from `ory_kratos_session=...` when it is a
/// header, else as it is.
pub open spec fn cookie_value(raw: Seq<char>) -> Result<Seq<char>, CookieError> {
    let t = trim(raw);
    if t.len() == 0 {
        Err(CookieError::Empty)
    } else if t.contains('\r') || t.contains('\n') {
        Err(CookieError::Newline)
    } else {
        match header_session_value(t) {
            Some(v) => Ok(v),
            None => Ok(t),
        }
    }
}

fn session_value_of_exec(part: &[char]) -> (r: Option<Vec<char>>)
    ensures
        match r {
            Some(v) => session_value_of(part@) == Some(v@),
            None => session_value_of(part@) is None,
        },
{
    let t = trim_chars(part);
    let n = t.len();
    match first_index_of_exec(&t, '=') {
        None => None,
        Some(e) => {
            let name = slice_vec(&t, 0, e);
            let value = slice_vec(&t, e + 1, t.len());
            assert(name@ =~= t@.take(e as int));
            assert(value@ =~= t@.skip(e + 1));
            if chars_are(&name, "ory_kratos_session") && value.len() > 0 {
                Some(value)
            } else {
                None
            }
        },
    }
}

/// The `ory_kratos_session` value of a cookie header, if it has one.
pub fn cookie_from_header(header: &str) -> (r: Option<String>)
    ensures
        match r {
            Some(v) => header_session_value(header@) == Some(v@),
            None => header_session_value(header@) is None,
        },
{
    let h = chars_of(header);
    let parts = split_chars(&h, ';');
    let ghost ps = parts@.map_values(|v: Vec<char>| v@);
    let mut k: usize = 0;
    while k < parts.len()
        invariant
            k <= parts@.len(),
            h@ == header@,
            ps == parts@.map_values(|v: Vec<char>| v@),
            ps == split_seq(header@, ';'),
            session_value_from(ps, 0) == session_value_from(ps, k as int),
        decreases parts.len() - k,
    {
        assert(ps[k as int] == parts@[k as int]@);
        match session_value_of_exec(&parts[k]) {
            Some(v) => {
                return Some(string_of(&v));
            },
            None => {},
        }
        k += 1;
    }
    None
}

fn has_line_break(t: &[char]) -> (r: bool)
    ensures
        r == (t@.contains('\r') || t@.contains('\n')),
{
    let mut k: usize = 0;
    while k < t.len()
        invariant
            k <= t@.len(),
            forall|j: int| 0 <= j < k ==> #[trigger] t@[j] != '\r' && t@[j] != '\n',
        decreases t.len() - k,
    {
        if t[k] == '\r' || t[k] == '\n' {
            assert(t@[k as int] == '\r' || t@[k as int] == '\n');
            return true;
        }
        k += 1;
    }
    false
}

/// Reads a pasted session cookie (see [`cookie_value`]).
pub fn extract_cookie_value(raw: &str) -> (r: Result<String, CookieError>)
    ensures
        match r {
            Ok(v) => cookie_value(raw@) == Ok::<Seq<char>, CookieError>(v@),
            Err(e) => cookie_value(raw@) == Err::<Seq<char>, CookieError>(e),
        },
{
    let v = chars_of(raw);
    let t = trim_chars(&v);
    if t.len() == 0 {
        return Err(CookieError::Empty);
    }
    if has_line_break(&t) {
        return Err(CookieError::Newline);
    }
    let text = string_of(&t);
    match cookie_from_header(text.as_str()) {
        Some(value) => Ok(value),
        None => Ok(text),
    }
}

// ---------------------------------------------------------------------------
// Logged amount
// ---------------------------------------------------------------------------

/// Tenths of a minute in a duration, rounded up, at least one second counted.
pub open spec fn minute_tenths(duration_seconds: int) -> int {
    let s = if duration_seconds < 1 {
        1
    } else {
        duration_seconds
    };
    (s + 5) / 6
}

/// The tenths of a minute Tadoku is given for a duration in seconds (the
/// amount in minutes, rounded up to one decimal, is this divided by ten).
pub fn tadoku_minute_tenths(duration_seconds: i32) -> (r: i64)
    ensures
        r == minute_tenths(duration_seconds as int),
{
    let s: i64 = if (duration_seconds as i64) < 1 {
        1
    } else {
        duration_seconds as i64
    };
    (s + 5) / 6
}

// ---------------------------------------------------------------------------
// Laws
// ---------------------------------------------------------------------------

proof fn lemma_trim_start_keeps_chars(x: Seq<char>, c: char)
    ensures
        trim_start(x).contains(c) ==> x.contains(c),
    decreases x.len(),
{
    if x.len() > 0 && crate::text::is_ws(x[0]) {
        lemma_trim_start_keeps_chars(x.drop_first(), c);
        if trim_start(x).contains(c) {
            let k = choose|k: int| 0 <= k < x.drop_first().len() && x.drop_first()[k] == c;
            assert(x[k + 1] == c);
        }
    }
}

proof fn lemma_trim_end_keeps_chars(x: Seq<char>, c: char)
    ensures
        trim_end(x).contains(c) ==> x.contains(c),
    decreases x.len(),
{
    if x.len() > 0 && crate::text::is_ws(x.last()) {
        lemma_trim_end_keeps_chars(x.drop_last(), c);
        if trim_end(x).contains(c) {
            let k = choose|k: int| 0 <= k < x.drop_last().len() && x.drop_last()[k] == c;
            assert(x[k] == c);
        }
    }
}

proof fn lemma_trim_keeps_chars(x: Seq<char>, c: char)
    ensures
        trim(x).contains(c) ==> x.contains(c),
{
    lemma_trim_end_keeps_chars(trim_start(x), c);
    lemma_trim_start_keeps_chars(x, c);
}

proof fn lemma_split_pieces_keep_chars(s: Seq<char>, sep: char, i: int, c: char)
    requires
        0 <= i,
        !s.contains(c),
    ensures
        forall|k: int| 0 <= k < split_from(s, sep, i).len() ==> !(#[trigger] split_from(s, sep, i)[k]).contains(c),
    decreases s.len() + 1 - i,
{
    if i <= s.len() {
        let j = next_index_of(s, sep, i);
        lemma_next_index_of(s, sep, i);
        if !(j >= s.len() || j < i) {
            lemma_split_pieces_keep_chars(s, sep, j + 1, c);
        }
        assert forall|k: int| 0 <= k < split_from(s, sep, i).len() implies !(#[trigger] split_from(
            s,
            sep,
            i,
        )[k]).contains(c) by {
            let pieces = split_from(s, sep, i);
            if k == 0 {
                let p = pieces[0];
                if p.contains(c) {
                    let w = choose|w: int| 0 <= w < p.len() && p[w] == c;
                    assert(s[i + w] == c);
                }
            } else {
                assert(pieces[k] == split_from(s, sep, j + 1)[k - 1]);
            }
        }
    }
}

proof fn lemma_session_values_keep_chars(parts: Seq<Seq<char>>, k: int, c: char)
    requires
        0 <= k,
        forall|t: int| 0 <= t < parts.len() ==> !(#[trigger] parts[t]).contains(c),
    ensures
        session_value_from(parts, k) matches Some(v) ==> !v.contains(c) && v.len() > 0,
    decreases parts.len() - k,
{
    if k < parts.len() {
        if session_value_of(parts[k]) is Some {
            let t = trim(parts[k]);
            lemma_trim_keeps_chars(parts[k], c);
            lemma_first_index_of(t, '=', 0);
            let e = first_index_of(t, '=', 0)->0;
            let v = t.skip(e + 1);
            if v.contains(c) {
                let w = choose|w: int| 0 <= w < v.len() && v[w] == c;
                assert(t[e + 1 + w] == c);
            }
        } else {
            lemma_session_values_keep_chars(parts, k + 1, c);
        }
    }
}

/// An accepted session cookie is never empty and never holds a line break.
pub proof fn lemma_cookie_value_is_clean(raw: Seq<char>)
    ensures
        cookie_value(raw) matches Ok(v) ==> v.len() > 0 && !v.contains('\n') && !v.contains('\r'),
{
    let t = trim(raw);
    if t.len() > 0 && !t.contains('\r') && !t.contains('\n') {
        lemma_split_pieces_keep_chars(t, ';', 0, '\n');
        lemma_split_pieces_keep_chars(t, ';', 0, '\r');
        lemma_session_values_keep_chars(split_seq(t, ';'), 0, '\n');
        lemma_session_values_keep_chars(split_seq(t, ';'), 0, '\r');
    }
}


// ---------------------------------------------------------------------------
// Connection check
// ---------------------------------------------------------------------------

/// A Tadoku unit of measure for an activity.
pub struct Unit {
    pub id: String,
    pub log_activity_id: i32,
    pub name: String,
    pub language_code: Option<String>,
}

/// The activities, languages and units Tadoku offers for logs.
pub struct ConfigurationOptions {
    pub activities: Vec<Activity>,
    pub languages: Vec<Language>,
    pub units: Vec<Unit>,
}

/// Why Tadoku cannot take listening logs in a language.
#[derive(Clone, Copy, Debug, PartialEq, Eq, Structural)]
pub enum ListeningSetupError {
    /// The language code is not offered.
    LanguageNotOffered,
    /// No activity is named Listening.
    NoListeningActivity,
    /// No Minute unit belongs to the Listening activity.
    NoMinuteUnit,
}

impl ListeningSetupError {
    /// The message shown for the error.
    pub fn message(&self, language_code: &str) -> (r: String)
        ensures
            r@ == (match self {
                ListeningSetupError::LanguageNotOffered => "Tadoku does not offer language code '"@
                    + language_code@ + "'"@,
                ListeningSetupError::NoListeningActivity => "Tadoku did not return a Listening activity"@,
                ListeningSetupError::NoMinuteUnit => "Tadoku did not return a Minute unit for Listening"@,
            }),
    {
        match self {
            ListeningSetupError::LanguageNotOffered => {
                let mut t: Vec<char> = Vec::new();
                crate::text::append_str(&mut t, "Tadoku does not offer language code '");
                crate::text::append_str(&mut t, language_code);
                crate::text::append_str(&mut t, "'");
                string_of(&t)
            },
            ListeningSetupError::NoListeningActivity => crate::text::owned(
                "Tadoku did not return a Listening activity",
            ),
            ListeningSetupError::NoMinuteUnit => crate::text::owned(
                "Tadoku did not return a Minute unit for Listening",
            ),
        }
    }
}

/// Whether Tadoku offers the language (ASCII case folded).
pub open spec fn language_offered(options: ConfigurationOptions, language_code: Seq<char>) -> bool {
    exists|k: int|
        0 <= k < options.languages@.len() && eq_ignore_case(
            #[trigger] options.languages@[k].code@,
            language_code,
        )
}

/// The first activity at or after `k` named Listening (ASCII case folded).
pub open spec fn listening_activity_from(acts: Seq<Activity>, k: int) -> Option<int>
    decreases acts.len() - k,
{
    if k < 0 || k >= acts.len() {
        None
    } else if eq_ignore_case(acts[k].name@, "listening"@) {
        Some(k)
    } else {
        listening_activity_from(acts, k + 1)
    }
}

/// Whether a unit is the Minute unit of the activity, for the language
/// (`Some`) or for every language (`None`).
pub open spec fn minute_unit_for(u: Unit, activity_id: i32, language_code: Option<Seq<char>>) -> bool {
    &&& u.log_activity_id == activity_id
    &&& eq_ignore_case(u.name@, "minute"@)
    &&& match language_code {
        Some(lc) => u.language_code matches Some(c) && eq_ignore_case(c@, lc),
        None => u.language_code is None,
    }
}

/// The first unit at or after `k` that is the Minute unit of the activity
/// for the language (see [`minute_unit_for`]).
pub open spec fn minute_unit_from(units: Seq<Unit>, activity_id: i32, language_code: Option<Seq<char>>, k: int) -> Option<int>
    decreases units.len() - k,
{
    if k < 0 || k >= units.len() {
        None
    } else if minute_unit_for(units[k], activity_id, language_code) {
        Some(k)
    } else {
        minute_unit_from(units, activity_id, language_code, k + 1)
    }
}

/// The Minute unit used for listening logs: the first one for the language,
/// else the first one for every language.
pub open spec fn listening_unit(units: Seq<Unit>, activity_id: i32, language_code: Seq<char>) -> Option<int> {
    match minute_unit_from(units, activity_id, Some(language_code), 0) {
        Some(k) => Some(k),
        None => minute_unit_from(units, activity_id, None, 0),
    }
}

fn find_listening_activity(acts: &Vec<Activity>) -> (r: Option<usize>)
    ensures
        match r {
            Some(k) => listening_activity_from(acts@, 0) == Some(k as int) && k < acts@.len(),
            None => listening_activity_from(acts@, 0) is None,
        },
{
    let mut k: usize = 0;
    while k < acts.len()
        invariant
            k <= acts@.len(),
            listening_activity_from(acts@, 0) == listening_activity_from(acts@, k as int),
        decreases acts.len() - k,
    {
        if str_eq_ignore_case(acts[k].name.as_str(), "listening") {
            return Some(k);
        }
        k += 1;
    }
    None
}

fn is_minute_unit(u: &Unit, activity_id: i32, language_code: Option<&str>) -> (r: bool)
    ensures
        r == minute_unit_for(*u, activity_id, match language_code {
            Some(lc) => Some(lc@),
            None => None,
        }),
{
    if u.log_activity_id != activity_id || !str_eq_ignore_case(u.name.as_str(), "minute") {
        return false;
    }
    match (language_code, &u.language_code) {
        (Some(lc), Some(c)) => str_eq_ignore_case(c.as_str(), lc),
        (Some(_), None) => false,
        (None, c) => c.is_none(),
    }
}

fn find_minute_unit(units: &Vec<Unit>, activity_id: i32, language_code: Option<&str>) -> (r: Option<usize>)
    ensures
        ({
            let lc = match language_code {
                Some(l) => Some(l@),
                None => None,
            };
            match r {
                Some(k) => minute_unit_from(units@, activity_id, lc, 0) == Some(k as int) && k < units@.len(),
                None => minute_unit_from(units@, activity_id, lc, 0) is None,
            }
        }),
{
    let ghost lc = match language_code {
        Some(l) => Some(l@),
        None => None,
    };
    let mut k: usize = 0;
    while k < units.len()
        invariant
            k <= units@.len(),
            lc == (match language_code {
                Some(l) => Some(l@),
                None => None,
            }),
            minute_unit_from(units@, activity_id, lc, 0) == minute_unit_from(units@, activity_id, lc, k as int),
        decreases units.len() - k,
    {
        if is_minute_unit(&units[k], activity_id, language_code) {
            return Some(k);
        }
        k += 1;
    }
    None
}

fn offers_language(options: &ConfigurationOptions, language_code: &str) -> (r: bool)
    ensures
        r == language_offered(*options, language_code@),
{
    let mut k: usize = 0;
    while k < options.languages.len()
        invariant
            k <= options.languages@.len(),
            forall|j: int| 0 <= j < k ==> !eq_ignore_case(#[trigger] options.languages@[j].code@, language_code@),
        decreases options.languages.len() - k,
    {
        if str_eq_ignore_case(options.languages[k].code.as_str(), language_code) {
            return true;
        }
        k += 1;
    }
    false
}

/// The connection check's result for the signed-in user: the language must
/// be offered, an activity named Listening must exist, and it must have a
/// Minute unit (see [`listening_unit`]); errors are checked in that order.
pub fn connection_info(
    user_id: String,
    display_name: Option<String>,
    options: &ConfigurationOptions,
    language_code: &str,
) -> (r: Result<TadokuConnectionInfo, ListeningSetupError>)
    ensures
        !language_offered(*options, language_code@) ==> r == Err::<TadokuConnectionInfo, _>(
            ListeningSetupError::LanguageNotOffered,
        ),
        language_offered(*options, language_code@) && listening_activity_from(options.activities@, 0)
            is None ==> r == Err::<TadokuConnectionInfo, _>(ListeningSetupError::NoListeningActivity),
        language_offered(*options, language_code@) ==> match listening_activity_from(options.activities@, 0) {
            None => true,
            Some(a) => match listening_unit(options.units@, options.activities@[a].id, language_code@) {
                None => r == Err::<TadokuConnectionInfo, _>(ListeningSetupError::NoMinuteUnit),
                Some(u) => r matches Ok(info) && info.user_id == user_id && info.display_name == display_name
                    && info.listening_activity_id == options.activities@[a].id
                    && info.listening_minutes_unit_id@ == options.units@[u].id@,
            },
        },
{
    if !offers_language(options, language_code) {
        return Err(ListeningSetupError::LanguageNotOffered);
    }
    let a = match find_listening_activity(&options.activities) {
        Some(a) => a,
        None => {
            return Err(ListeningSetupError::NoListeningActivity);
        },
    };
    let activity_id = options.activities[a].id;
    let u = match find_minute_unit(&options.units, activity_id, Some(language_code)) {
        Some(u) => u,
        None => match find_minute_unit(&options.units, activity_id, None) {
            Some(u) => u,
            None => {
                return Err(ListeningSetupError::NoMinuteUnit);
            },
        },
    };
    Ok(
        TadokuConnectionInfo {
            user_id,
            display_name,
            listening_activity_id: activity_id,
            listening_minutes_unit_id: options.units[u].id.clone(),
        },
    )
}


// ---------------------------------------------------------------------------
// Browser login flow
// ---------------------------------------------------------------------------

/// The form to post for a browser login.
pub struct LoginForm {
    pub action: String,
    pub csrf_token: String,
}

/// Why a login flow from Tadoku's account service is refused.
#[derive(Clone, Copy, Debug, PartialEq, Eq, Structural)]
pub enum LoginFlowError {
    /// The flow does not read, or its form posts somewhere other than the
    /// account service's login endpoint.
    InvalidFlow,
    /// The form has no CSRF token.
    MissingCsrfToken,
}

impl LoginFlowError {
    /// The message shown for the error.
    pub fn message(&self) -> (r: &'static str)
        ensures
            r@ == (match self {
                LoginFlowError::InvalidFlow => "Tadoku returned an invalid login flow"@,
                LoginFlowError::MissingCsrfToken => "Tadoku did not return a CSRF token"@,
            }),
    {
        match self {
            LoginFlowError::InvalidFlow => "Tadoku returned an invalid login flow",
            LoginFlowError::MissingCsrfToken => "Tadoku did not return a CSRF token",
        }
    }
}

/// Whether a value is an object.
pub open spec fn is_object(o: Option<JsonValue>) -> bool {
    o matches Some(JsonValue::Object(_))
}

/// An optional string field: missing or `null` is none; a string is that
/// text; anything else does not read.
pub open spec fn optional_text(o: Option<JsonValue>) -> Option<Option<Seq<char>>> {
    match o {
        None => Some(None),
        Some(JsonValue::Null) => Some(None),
        Some(JsonValue::String(t)) => Some(Some(t@)),
        _ => None,
    }
}

/// Whether a form node reads: an object whose `attributes` is an object
/// with a readable optional `name`.
pub open spec fn login_node_parses(node: JsonValue) -> bool {
    &&& is_object(member(node, "attributes"@))
    &&& optional_text(at(member(node, "attributes"@), "name"@)) is Some
}

/// The nodes of the form: none when missing, the elements of an array;
/// anything else does not read.
pub open spec fn login_nodes(ui: Option<JsonValue>) -> Option<Seq<JsonValue>> {
    match at(ui, "nodes"@) {
        None => Some(Seq::empty()),
        Some(JsonValue::Array(a)) => Some(a@),
        Some(_) => None,
    }
}

/// Whether a login flow reads: a `ui` object with a string `action` and
/// nodes that each read.
pub open spec fn login_flow_parses(flow: JsonValue) -> bool {
    let ui = member(flow, "ui"@);
    &&& as_str(at(ui, "action"@)) is Some
    &&& login_nodes(ui) matches Some(nodes) && forall|i: int|
        0 <= i < nodes.len() ==> login_node_parses(#[trigger] nodes[i])
}

/// The first node at or after `k` named `csrf_token`.
pub open spec fn csrf_node_from(nodes: Seq<JsonValue>, k: int) -> Option<int>
    decreases nodes.len() - k,
{
    if k < 0 || k >= nodes.len() {
        None
    } else if optional_text(at(member(nodes[k], "attributes"@), "name"@)) == Some(
        Some("csrf_token"@),
    ) {
        Some(k)
    } else {
        csrf_node_from(nodes, k + 1)
    }
}

/// The CSRF token of a form: the value of the first node named
/// `csrf_token`, when it is a non-empty string.
pub open spec fn csrf_token_of(nodes: Seq<JsonValue>) -> Option<Seq<char>> {
    match csrf_node_from(nodes, 0) {
        Some(k) => match as_str(at(member(nodes[k], "attributes"@), "value"@)) {
            Some(t) => if t.len() > 0 {
                Some(t)
            } else {
                None
            },
            None => None,
        },
        None => None,
    }
}

/// The login endpoint prefix that a flow's form must post to.
pub open spec fn login_action_prefix(auth_url: Seq<char>) -> Seq<char> {
    without_trailing_slashes(auth_url) + "/self-service/login?"@
}

fn optional_text_exec(o: Option<&JsonValue>) -> (r: Option<Option<String>>)
    ensures
        match r {
            None => optional_text(value_of(o)) is None,
            Some(None) => optional_text(value_of(o)) == Some(None::<Seq<char>>),
            Some(Some(t)) => optional_text(value_of(o)) == Some(Some(t@)),
        },
{
    match o {
        None => Some(None),
        Some(JsonValue::Null) => Some(None),
        Some(JsonValue::String(t)) => Some(Some(owned(t.as_str()))),
        _ => None,
    }
}

/// The form of a browser login flow, posted to `auth_url`'s login
/// endpoint. The flow must read (see [`login_flow_parses`]) and its action
/// start with [`login_action_prefix`]; then it needs a CSRF token (see
/// [`csrf_token_of`]).
pub fn login_form(flow: &JsonValue, auth_url: &str) -> (r: Result<LoginForm, LoginFlowError>)
    ensures
        !login_flow_parses(*flow) ==> r == Err::<LoginForm, _>(LoginFlowError::InvalidFlow),
        login_flow_parses(*flow) ==> {
            let ui = member(*flow, "ui"@);
            let action = as_str(at(ui, "action"@))->0;
            if !has_prefix(action, login_action_prefix(auth_url@)) {
                r == Err::<LoginForm, _>(LoginFlowError::InvalidFlow)
            } else {
                match csrf_token_of(login_nodes(ui)->0) {
                    None => r == Err::<LoginForm, _>(LoginFlowError::MissingCsrfToken),
                    Some(t) => r matches Ok(form) && form.action@ == action && form.csrf_token@ == t,
                }
            }
        },
{
    let ui = member_of(flow, "ui");
    let action = match str_value(at_key(ui, "action")) {
        Some(a) => a,
        None => {
            return Err(LoginFlowError::InvalidFlow);
        },
    };
    let nodes: &Vec<JsonValue> = match at_key(ui, "nodes") {
        None => {
            // No nodes: the flow reads, but there is no token.
            proof {
                assert(login_nodes(value_of(ui)) == Some(Seq::<JsonValue>::empty()));
                assert(csrf_node_from(Seq::<JsonValue>::empty(), 0) is None);
            }
            let base = trimmed_base(auth_url);
            if !action_allowed(&action, &base) {
                return Err(LoginFlowError::InvalidFlow);
            }
            return Err(LoginFlowError::MissingCsrfToken);
        },
        Some(JsonValue::Array(a)) => a,
        Some(_) => {
            return Err(LoginFlowError::InvalidFlow);
        },
    };
    // Every node must read before anything else is looked at.
    let mut k: usize = 0;
    while k < nodes.len()
        invariant
            k <= nodes@.len(),
            login_nodes(member(*flow, "ui"@)) == Some(nodes@),
            forall|i: int| 0 <= i < k ==> login_node_parses(#[trigger] nodes@[i]),
        decreases nodes.len() - k,
    {
        let attrs = member_of(&nodes[k], "attributes");
        let is_obj = match attrs {
            Some(JsonValue::Object(_)) => true,
            _ => false,
        };
        if !is_obj || optional_text_exec(at_key(attrs, "name")).is_none() {
            assert(!login_node_parses(nodes@[k as int]));
            return Err(LoginFlowError::InvalidFlow);
        }
        k += 1;
    }
    assert(login_flow_parses(*flow));
    let base = trimmed_base(auth_url);
    if !action_allowed(&action, &base) {
        return Err(LoginFlowError::InvalidFlow);
    }
    let mut k: usize = 0;
    while k < nodes.len()
        invariant
            k <= nodes@.len(),
            login_flow_parses(*flow),
            login_nodes(member(*flow, "ui"@)) == Some(nodes@),
            as_str(at(member(*flow, "ui"@), "action"@)) == Some(action@),
            has_prefix(action@, login_action_prefix(auth_url@)),
            csrf_node_from(nodes@, 0) == csrf_node_from(nodes@, k as int),
        decreases nodes.len() - k,
    {
        let attrs = member_of(&nodes[k], "attributes");
        let named = match optional_text_exec(at_key(attrs, "name")) {
            Some(Some(n)) => crate::text::str_equal(n.as_str(), "csrf_token"),
            _ => false,
        };
        if named {
            return match str_value(at_key(attrs, "value")) {
                Some(t) => {
                    if t.as_str().is_empty() {
                        Err(LoginFlowError::MissingCsrfToken)
                    } else {
                        Ok(LoginForm { action, csrf_token: t })
                    }
                },
                None => Err(LoginFlowError::MissingCsrfToken),
            };
        }
        k += 1;
    }
    Err(LoginFlowError::MissingCsrfToken)
}

/// `auth_url` without trailing slashes, followed by the login endpoint.
fn trimmed_base(auth_url: &str) -> (r: Vec<char>)
    ensures
        r@ == login_action_prefix(auth_url@),
{
    let s = chars_of(auth_url);
    let mut j = s.len();
    assert(s@.take(j as int) =~= s@);
    while j > 0 && s[j - 1] == '/'
        invariant
            j <= s@.len(),
            without_trailing_slashes(s@) == without_trailing_slashes(s@.take(j as int)),
        decreases j,
    {
        assert(s@.take(j as int).drop_last() =~= s@.take(j - 1));
        j -= 1;
    }
    let mut b = slice_vec(&s, 0, j);
    assert(b@ =~= s@.take(j as int));
    append_str(&mut b, "/self-service/login?");
    b
}

fn action_allowed(action: &String, prefix: &Vec<char>) -> (r: bool)
    ensures
        r == has_prefix(action@, prefix@),
{
    starts_with_chars(&chars_of(action.as_str()), prefix)
}

} // verus!
