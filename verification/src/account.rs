//! Accounts: the rules a new account must meet, the personal-best decision,
//! what a finished match credits each registered player, and the table of
//! login sessions. Storage and password hashing are done by the caller.
use vstd::prelude::*;
use crate::board::Difficulty;
use crate::room::{is_blank, is_space};
use crate::text::{owned, str_eq};

verus! {

/// A stored account.
#[derive(Debug, Clone)]
pub struct UserRecord {
    pub id: String,
    pub username: String,
    pub password_hash: String,
}

/// How many bytes the UTF-8 encoding of `c` takes.
pub open spec fn utf8_width(c: char) -> nat {
    if (c as u32) < 0x80 {
        1
    } else if (c as u32) < 0x800 {
        2
    } else if (c as u32) < 0x10000 {
        3
    } else {
        4
    }
}

/// How many bytes the UTF-8 encoding of `s` takes (what `str::len` gives).
pub open spec fn utf8_len(s: Seq<char>) -> nat
    decreases s.len(),
{
    if s.len() == 0 {
        0
    } else {
        utf8_len(s.drop_last()) + utf8_width(s.last())
    }
}

/// The message of a refused registration.
pub open spec fn registration_refusal() -> Seq<char> {
    "Username cannot be empty and password must be at least 4 characters"@
}

/// Whether a sign-up with this name and password is refused: a name that is
/// blank once trimmed, or a password shorter than 4 bytes.
pub open spec fn refused(username: Seq<char>, password: Seq<char>) -> bool {
    (forall|i: int| 0 <= i < username.len() ==> is_space(#[trigger] username[i])) || utf8_len(password) < 4
}

/// The number of bytes of the UTF-8 encoding of `s`, or 4 when that is at
/// least 4.
fn bytes_up_to_four(s: &str) -> (n: usize)
    ensures
        n == if utf8_len(s@) < 4 { utf8_len(s@) } else { 4 },
{
    let len = s.unicode_len();
    let mut n: usize = 0;
    let mut i: usize = 0;
    while i < len
        invariant
            i <= len,
            len == s@.len(),
            n == utf8_len(s@.take(i as int)),
            n < 4,
        decreases len - i,
    {
        let c = s.get_char(i);
        let w: usize = if (c as u32) < 0x80 {
            1
        } else if (c as u32) < 0x800 {
            2
        } else if (c as u32) < 0x10000 {
            3
        } else {
            4
        };
        proof {
            assert(s@.take(i + 1).drop_last() =~= s@.take(i as int));
            assert(s@.take(i + 1).last() == c);
        }
        n = n + w;
        i = i + 1;
        if n >= 4 {
            proof {
                lemma_utf8_len_prefix(s@, i as int);
            }
            return 4;
        }
    }
    proof {
        assert(s@.take(len as int) =~= s@);
    }
    n
}

/// A prefix never takes more bytes than the whole.
proof fn lemma_utf8_len_prefix(s: Seq<char>, k: int)
    requires
        0 <= k <= s.len(),
    ensures
        utf8_len(s.take(k)) <= utf8_len(s),
    decreases s.len() - k,
{
    if k < s.len() {
        lemma_utf8_len_prefix(s, k + 1);
        assert(s.take(k + 1).drop_last() =~= s.take(k));
    } else {
        assert(s.take(k) =~= s);
    }
}

/// Why a sign-up is refused, if it is: the name must not be blank and the
/// password must take at least 4 bytes.
pub fn registration_error(username: &str, password: &str) -> (r: Option<String>)
    ensures
        r is Some <==> refused(username@, password@),
        r matches Some(e) ==> e@ == registration_refusal(),
{
    if is_blank(username) || bytes_up_to_four(password) < 4 {
        Some(owned("Username cannot be empty and password must be at least 4 characters"))
    } else {
        None
    }
}

/// A winning time is a new personal best when there is none yet for the
/// board, or when it beats the one stored.
pub fn is_new_best(existing: Option<u64>, time_ms: u64) -> (b: bool)
    ensures
        b == match existing {
            Some(curr) => time_ms < curr,
            None => true,
        },
{
    match existing {
        Some(curr) => time_ms < curr,
        None => true,
    }
}

/// The name under which the personal bests of a difficulty are stored.
pub open spec fn difficulty_label(d: Difficulty) -> Seq<char> {
    match d {
        Difficulty::Easy => "Easy"@,
        Difficulty::Medium => "Medium"@,
        Difficulty::Expert => "Expert"@,
        Difficulty::Custom => "Custom"@,
    }
}

pub fn difficulty_name(d: Difficulty) -> (s: &'static str)
    ensures
        s@ == difficulty_label(d),
{
    match d {
        Difficulty::Easy => "Easy",
        Difficulty::Medium => "Medium",
        Difficulty::Expert => "Expert",
        Difficulty::Custom => "Custom",
    }
}

/// The time of the last row stored under `label` among `rows`, if any.
pub open spec fn last_time(rows: Seq<(String, u64)>, label: Seq<char>) -> Option<u64>
    decreases rows.len(),
{
    if rows.len() == 0 {
        None
    } else if rows.last().0@ == label {
        Some(rows.last().1)
    } else {
        last_time(rows.drop_last(), label)
    }
}

/// The personal bests of the three fixed difficulties out of the stored
/// rows of (difficulty, time); a later row of a difficulty replaces an
/// earlier one, and rows of other boards are passed over.
pub fn best_times(rows: &Vec<(String, u64)>) -> (r: (Option<u64>, Option<u64>, Option<u64>))
    ensures
        r.0 == last_time(rows@, "Easy"@),
        r.1 == last_time(rows@, "Medium"@),
        r.2 == last_time(rows@, "Expert"@),
{
    let mut easy: Option<u64> = None;
    let mut medium: Option<u64> = None;
    let mut expert: Option<u64> = None;
    let mut i: usize = 0;
    while i < rows.len()
        invariant
            i <= rows@.len(),
            easy == last_time(rows@.take(i as int), "Easy"@),
            medium == last_time(rows@.take(i as int), "Medium"@),
            expert == last_time(rows@.take(i as int), "Expert"@),
        decreases rows@.len() - i,
    {
        proof {
            assert(rows@.take(i + 1).drop_last() =~= rows@.take(i as int));
            assert(rows@.take(i + 1).last() == rows@[i as int]);
            reveal_strlit("Easy");
            reveal_strlit("Medium");
            reveal_strlit("Expert");
            assert("Easy"@ != "Medium"@ && "Easy"@ != "Expert"@ && "Medium"@ != "Expert"@) by {
                assert("Easy"@.len() != "Medium"@.len() && "Easy"@.len() != "Expert"@.len());
                assert("Medium"@[0] != "Expert"@[0]);
            }
        }
        let label = rows[i].0.as_str();
        if str_eq(label, "Easy") {
            easy = Some(rows[i].1);
        } else if str_eq(label, "Medium") {
            medium = Some(rows[i].1);
        } else if str_eq(label, "Expert") {
            expert = Some(rows[i].1);
        }
        i = i + 1;
    }
    proof {
        assert(rows@.take(rows@.len() as int) =~= rows@);
    }
    (easy, medium, expert)
}

/// For each (account, score) of a finished match, whether that account is
/// the winner's.
pub fn match_credits(scores: &Vec<(String, u32)>, winner_id: &Option<String>) -> (won: Vec<bool>)
    ensures
        won@.len() == scores@.len(),
        forall|i: int| 0 <= i < scores@.len() ==> #[trigger] won@[i] == (winner_id matches Some(w) && w@ == scores@[i].0@),
{
    let mut won: Vec<bool> = Vec::new();
    let mut i: usize = 0;
    while i < scores.len()
        invariant
            i <= scores@.len(),
            won@.len() == i,
            forall|k: int| 0 <= k < i ==> #[trigger] won@[k] == (winner_id matches Some(w) && w@ == scores@[k].0@),
        decreases scores@.len() - i,
    {
        let is_winner = match winner_id {
            Some(w) => str_eq(w.as_str(), scores[i].0.as_str()),
            None => false,
        };
        won.push(is_winner);
        i = i + 1;
    }
    won
}

/// The login sessions: which account each token stands for. A token
/// occurs at most once.
pub struct SessionTable {
    pub entries: Vec<(String, String)>,
}

impl SessionTable {
    /// No token occurs twice.
    pub open spec fn wf(self) -> bool {
        forall|i: int, j: int| 0 <= i < j < self.entries@.len() ==> (#[trigger] self.entries@[i]).0@ != (#[trigger] self.entries@[j]).0@
    }

    /// Token `t` stands for account `u`.
    pub open spec fn holds(self, t: Seq<char>, u: Seq<char>) -> bool {
        exists|i: int| 0 <= i < self.entries@.len() && (#[trigger] self.entries@[i]).0@ == t && self.entries@[i].1@ == u
    }

    /// Token `t` stands for some account.
    pub open spec fn knows(self, t: Seq<char>) -> bool {
        exists|i: int| 0 <= i < self.entries@.len() && (#[trigger] self.entries@[i]).0@ == t
    }

    pub fn new() -> (s: Self)
        ensures
            s.wf(),
            forall|t: Seq<char>| !s.knows(t),
    {
        SessionTable { entries: Vec::new() }
    }

    fn position(&self, token: &str) -> (r: Option<usize>)
        ensures
            r matches Some(i) ==> i < self.entries@.len() && self.entries@[i as int].0@ == token@,
            r is None ==> !self.knows(token@),
    {
        let mut i: usize = 0;
        while i < self.entries.len()
            invariant
                i <= self.entries@.len(),
                forall|k: int| 0 <= k < i ==> (#[trigger] self.entries@[k]).0@ != token@,
            decreases self.entries@.len() - i,
        {
            if str_eq(self.entries[i].0.as_str(), token) {
                return Some(i);
            }
            i = i + 1;
        }
        None
    }

    /// The account that `token` stands for.
    pub fn user_for(&self, token: &str) -> (r: Option<String>)
        requires
            self.wf(),
        ensures
            r is None <==> !self.knows(token@),
            r matches Some(u) ==> self.holds(token@, u@),
    {
        match self.position(token) {
            Some(i) => Some(self.entries[i].1.clone()),
            None => None,
        }
    }

    /// Token `token` now stands for `user_id` (replacing what it stood for);
    /// every other token keeps its account.
    pub fn insert(&mut self, token: String, user_id: String)
        requires
            old(self).wf(),
        ensures
            final(self).wf(),
            final(self).holds(token@, user_id@),
            forall|t: Seq<char>| t != token@ ==> (final(self).knows(t) <==> old(self).knows(t)),
            forall|t: Seq<char>, u: Seq<char>| t != token@ ==> (#[trigger] final(self).holds(t, u) <==> old(self).holds(t, u)),
    {
        let ghost before = self.entries@;
        match self.position(token.as_str()) {
            Some(i) => {
                self.entries.set(i, (token, user_id));
                proof {
                    assert(self.entries@[i as int].0@ == before[i as int].0@);
                    assert forall|t: Seq<char>, u: Seq<char>| t != token@ implies (#[trigger] self.holds(t, u) <==> exists|k: int| 0 <= k < before.len() && (#[trigger] before[k]).0@ == t && before[k].1@ == u) by {
                        if self.holds(t, u) {
                            let k = choose|k: int| 0 <= k < self.entries@.len() && (#[trigger] self.entries@[k]).0@ == t && self.entries@[k].1@ == u;
                            assert(k != i);
                            assert(before[k] == self.entries@[k]);
                        }
                        if exists|k: int| 0 <= k < before.len() && (#[trigger] before[k]).0@ == t && before[k].1@ == u {
                            let k = choose|k: int| 0 <= k < before.len() && (#[trigger] before[k]).0@ == t && before[k].1@ == u;
                            assert(k != i);
                            assert(self.entries@[k] == before[k]);
                        }
                    }
                    assert forall|t: Seq<char>| t != self.entries@[i as int].0@ implies (self.knows(t) <==> exists|k: int| 0 <= k < before.len() && (#[trigger] before[k]).0@ == t) by {
                        if self.knows(t) {
                            let k = choose|k: int| 0 <= k < self.entries@.len() && (#[trigger] self.entries@[k]).0@ == t;
                            assert(before[k] == self.entries@[k]);
                        }
                        if exists|k: int| 0 <= k < before.len() && (#[trigger] before[k]).0@ == t {
                            let k = choose|k: int| 0 <= k < before.len() && (#[trigger] before[k]).0@ == t;
                            assert(self.entries@[k] == before[k]);
                        }
                    }
                    assert(self.holds(token@, user_id@)) by {
                        assert(self.entries@[i as int].0@ == token@);
                    }
                }
            }
            None => {
                self.entries.push((token, user_id));
                proof {
                    let n = before.len() as int;
                    assert(self.entries@[n].0@ == token@);
                    assert forall|t: Seq<char>, u: Seq<char>| t != token@ implies (#[trigger] self.holds(t, u) <==> exists|k: int| 0 <= k < before.len() && (#[trigger] before[k]).0@ == t && before[k].1@ == u) by {
                        if self.holds(t, u) {
                            let k = choose|k: int| 0 <= k < self.entries@.len() && (#[trigger] self.entries@[k]).0@ == t && self.entries@[k].1@ == u;
                            assert(k < n);
                            assert(before[k] == self.entries@[k]);
                        }
                        if exists|k: int| 0 <= k < before.len() && (#[trigger] before[k]).0@ == t && before[k].1@ == u {
                            let k = choose|k: int| 0 <= k < before.len() && (#[trigger] before[k]).0@ == t && before[k].1@ == u;
                            assert(self.entries@[k] == before[k]);
                        }
                    }
                    assert forall|t: Seq<char>| t != token@ implies (self.knows(t) <==> exists|k: int| 0 <= k < before.len() && (#[trigger] before[k]).0@ == t) by {
                        if self.knows(t) {
                            let k = choose|k: int| 0 <= k < self.entries@.len() && (#[trigger] self.entries@[k]).0@ == t;
                            assert(k < n);
                            assert(before[k] == self.entries@[k]);
                        }
                        if exists|k: int| 0 <= k < before.len() && (#[trigger] before[k]).0@ == t {
                            let k = choose|k: int| 0 <= k < before.len() && (#[trigger] before[k]).0@ == t;
                            assert(self.entries@[k] == before[k]);
                        }
                    }
                    assert forall|a: int, b: int| 0 <= a < b < self.entries@.len() implies (#[trigger] self.entries@[a]).0@ != (#[trigger] self.entries@[b]).0@ by {
                        if b < n {
                            assert(before[a].0@ != before[b].0@);
                        } else {
                            assert(self.entries@[a] == before[a]);
                        }
                    }
                }
            }
        }
    }

    /// A new session for `user_id`: a token of `tok_` and a fresh identifier,
    /// which from now on stands for that account.
    pub fn open_session(&mut self, user_id: String) -> (token: String)
        requires
            old(self).wf(),
        ensures
            final(self).wf(),
            token@.len() == 40,
            token@.subrange(0, 4) == "tok_"@,
            final(self).holds(token@, user_id@),
            forall|t: Seq<char>, u: Seq<char>| t != token@ ==> (#[trigger] final(self).holds(t, u) <==> old(self).holds(t, u)),
    {
        let mut token = owned("tok_");
        let id = crate::chance::fresh_id();
        token.append(id.as_str());
        proof {
            reveal_strlit("tok_");
            assert(token@.subrange(0, 4) =~= "tok_"@);
        }
        self.insert(token.clone(), user_id);
        token
    }
}

/// A token stands for one account at most.
pub proof fn lemma_one_account_per_token(table: SessionTable, t: Seq<char>, u1: Seq<char>, u2: Seq<char>)
    requires
        table.wf(),
        table.holds(t, u1),
        table.holds(t, u2),
    ensures
        u1 == u2,
{
    let i = choose|i: int| 0 <= i < table.entries@.len() && (#[trigger] table.entries@[i]).0@ == t && table.entries@[i].1@ == u1;
    let j = choose|j: int| 0 <= j < table.entries@.len() && (#[trigger] table.entries@[j]).0@ == t && table.entries@[j].1@ == u2;
    if i < j {
        assert(table.entries@[i].0@ != table.entries@[j].0@);
    } else if j < i {
        assert(table.entries@[j].0@ != table.entries@[i].0@);
    }
}

/// `s` without the white space at either end (as `str::trim` gives it).
pub open spec fn trimmed(s: Seq<char>) -> Seq<char>
    decreases s.len(),
{
    if s.len() == 0 {
        s
    } else if is_space(s[0]) {
        trimmed(s.subrange(1, s.len() as int))
    } else if is_space(s.last()) {
        trimmed(s.drop_last())
    } else {
        s
    }
}

/// The token carried by an `Authorization` header value: what follows
/// `Bearer ` when the value starts so, else the whole value, without the
/// white space at either end.
pub open spec fn header_token(value: Seq<char>) -> Seq<char> {
    if value.len() >= 7 && value.subrange(0, 7) == "Bearer "@ {
        trimmed(value.subrange(7, value.len() as int))
    } else {
        trimmed(value)
    }
}

fn space(c: char) -> (b: bool)
    ensures
        b == is_space(c),
{
    ('\u{9}' <= c && c <= '\u{d}') || c == ' ' || c == '\u{85}' || c == '\u{a0}' || c == '\u{1680}'
        || ('\u{2000}' <= c && c <= '\u{200a}') || c == '\u{2028}' || c == '\u{2029}' || c == '\u{202f}'
        || c == '\u{205f}' || c == '\u{3000}'
}

/// Trimming the characters of `s` from `lo` to `hi` after dropping the white
/// space at its ends gives the same as trimming all of `s`.
proof fn lemma_trim_range(s: Seq<char>, lo: int, hi: int)
    requires
        0 <= lo <= hi <= s.len(),
        forall|i: int| 0 <= i < lo ==> is_space(#[trigger] s[i]),
        forall|i: int| hi <= i < s.len() ==> is_space(#[trigger] s[i]),
    ensures
        trimmed(s) == trimmed(s.subrange(lo, hi)),
    decreases s.len(),
{
    if lo > 0 {
        let t = s.subrange(1, s.len() as int);
        assert(is_space(s[0]));
        assert(t.subrange(lo - 1, hi - 1) =~= s.subrange(lo, hi));
        assert forall|i: int| 0 <= i < lo - 1 implies is_space(#[trigger] t[i]) by {
            assert(t[i] == s[i + 1]);
        }
        assert forall|i: int| hi - 1 <= i < t.len() implies is_space(#[trigger] t[i]) by {
            assert(t[i] == s[i + 1]);
        }
        lemma_trim_range(t, lo - 1, hi - 1);
    } else if hi < s.len() {
        let t = s.drop_last();
        assert(t.subrange(lo, hi) =~= s.subrange(lo, hi));
        if s.len() > 0 && is_space(s[0]) {
            // lo == 0 and s[0] is white space: the range starts at white space too.
            let u = s.subrange(1, s.len() as int);
            assert(u.subrange(0, u.len() as int) =~= u);
            if hi == 0 {
                assert(s.subrange(lo, hi) =~= Seq::<char>::empty());
                lemma_all_space(s);
            } else {
                assert(s.subrange(lo, hi)[0] == s[0]);
                lemma_trim_range(u, 0, hi - 1);
                lemma_trim_front(s.subrange(lo, hi));
                assert(s.subrange(lo, hi).subrange(1, hi) =~= u.subrange(0, hi - 1));
            }
        } else {
            assert(is_space(s.last()));
            assert forall|i: int| hi <= i < t.len() implies is_space(#[trigger] t[i]) by {
                assert(t[i] == s[i]);
            }
            lemma_trim_range(t, lo, hi);
        }
    } else {
        assert(s.subrange(lo, hi) =~= s);
    }
}

/// Trimming a sequence that starts with white space is trimming its rest.
proof fn lemma_trim_front(s: Seq<char>)
    requires
        s.len() > 0,
        is_space(s[0]),
    ensures
        trimmed(s) == trimmed(s.subrange(1, s.len() as int)),
{
}

/// A sequence of white space trims to nothing.
proof fn lemma_all_space(s: Seq<char>)
    requires
        forall|i: int| 0 <= i < s.len() ==> is_space(#[trigger] s[i]),
    ensures
        trimmed(s) == Seq::<char>::empty(),
    decreases s.len(),
{
    if s.len() > 0 {
        let t = s.subrange(1, s.len() as int);
        assert forall|i: int| 0 <= i < t.len() implies is_space(#[trigger] t[i]) by {
            assert(t[i] == s[i + 1]);
        }
        lemma_all_space(t);
    }
}

/// `s` from character `from`, trimmed.
fn trim_from(s: &str, from: usize) -> (r: String)
    requires
        from <= s@.len(),
    ensures
        r@ == trimmed(s@.subrange(from as int, s@.len() as int)),
{
    let n = s.unicode_len();
    let mut lo = from;
    while lo < n && space(s.get_char(lo))
        invariant
            from <= lo <= n,
            n == s@.len(),
            forall|i: int| from <= i < lo ==> is_space(#[trigger] s@[i]),
        decreases n - lo,
    {
        lo = lo + 1;
    }
    let mut hi = n;
    while hi > lo && space(s.get_char(hi - 1))
        invariant
            lo <= hi <= n,
            n == s@.len(),
            forall|i: int| hi <= i < n ==> is_space(#[trigger] s@[i]),
        decreases hi - lo,
    {
        hi = hi - 1;
    }
    let ghost whole = s@.subrange(from as int, n as int);
    proof {
        assert forall|i: int| 0 <= i < lo - from implies is_space(#[trigger] whole[i]) by {
            assert(whole[i] == s@[i + from]);
        }
        assert forall|i: int| hi - from <= i < whole.len() implies is_space(#[trigger] whole[i]) by {
            assert(whole[i] == s@[i + from]);
        }
        lemma_trim_range(whole, lo - from, hi - from);
        assert(whole.subrange(lo - from, hi - from) =~= s@.subrange(lo as int, hi as int));
        let core = s@.subrange(lo as int, hi as int);
        if core.len() > 0 {
            assert(!is_space(core[0]));
            assert(!is_space(core.last()));
        }
    }
    let r = s.substring_char(lo, hi);
    let mut out = String::new();
    out.append(r);
    out
}

/// The token of an `Authorization` header value (see `header_token`).
pub fn token_from_header(value: &str) -> (t: String)
    ensures
        t@ == header_token(value@),
{
    let n = value.unicode_len();
    proof {
        reveal_strlit("Bearer ");
    }
    let bearer = n >= 7 && str_eq(value.substring_char(0, 7), "Bearer ");
    if bearer {
        trim_from(value, 7)
    } else {
        let t = trim_from(value, 0);
        proof {
            assert(value@.subrange(0, n as int) =~= value@);
        }
        t
    }
}

/// How a request that needs a session is answered: an HTTP status and
/// message when it is refused.
pub open spec fn session_refusal(sessions: SessionTable, header: Option<Seq<char>>) -> Option<(u16, Seq<char>)> {
    match header {
        None => Some((401u16, "Missing auth token"@)),
        Some(v) => if sessions.knows(header_token(v)) { None } else { Some((401u16, "Invalid or expired session"@)) },
    }
}

/// The account of a request's `Authorization` header: refused with 401 when
/// the header is missing or its token stands for no session.
pub fn authorized_user(sessions: &SessionTable, header: Option<&str>) -> (r: Result<String, (u16, String)>)
    requires
        sessions.wf(),
    ensures
        match r {
            Ok(u) => session_refusal(*sessions, match header { Some(h) => Some(h@), None => None }) is None
                && sessions.holds(header_token(header->Some_0@), u@),
            Err((code, msg)) => session_refusal(*sessions, match header { Some(h) => Some(h@), None => None }) == Some((code, msg@)),
        },
{
    match header {
        None => Err((401, owned("Missing auth token"))),
        Some(h) => {
            let token = token_from_header(h);
            match sessions.user_for(token.as_str()) {
                Some(u) => Ok(u),
                None => Err((401, owned("Invalid or expired session"))),
            }
        }
    }
}

} // verus!
