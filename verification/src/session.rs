//! Sessions and the table that holds them.
//!
//! A session is the record of a user who has logged in: who it is, until
//! when the session lives, what the user may do and how much credit is left.
//! The table maps the token of each session to the session. Its model is a
//! map from token text to the view of the session.

use vstd::prelude::*;

use crate::authorisation::UserRights;
use crate::text::str_eq;
use crate::timestamp::Timestamp;

verus! {

/// How many characters of a token a snapshot of the table shows.
pub const TOKEN_PREFIX: usize = 20;

/// The record of a user who has logged in.
#[derive(Debug)]
pub struct Session {
    /// Who the user is.
    pub uuid: u128,
    /// The instant after which the session is dead.
    pub expire: Timestamp,
    /// The token under which the session is stored, kept to check the
    /// session against the key it was found under.
    pub token: String,
    /// What the user can still spend, in millionths of a cent. It may be
    /// negative.
    pub credit: i64,
    /// What the user may do.
    pub level: UserRights,
}

/// What a session holds, with its token as a sequence of characters.
pub struct SessionView {
    pub uuid: u128,
    pub expire: Timestamp,
    pub token: Seq<char>,
    pub credit: i64,
    pub level: UserRights,
}

impl View for Session {
    type V = SessionView;

    open spec fn view(&self) -> SessionView {
        SessionView {
            uuid: self.uuid,
            expire: self.expire,
            token: self.token@,
            credit: self.credit,
            level: self.level,
        }
    }
}

impl Session {
    pub fn new(uuid: u128, expire: Timestamp, token: String, credit: i64, level: UserRights) -> (s:
        Session)
        ensures
            s@ == (SessionView { uuid, expire, token: token@, credit, level }),
    {
        Session { uuid, expire, token, credit, level }
    }

    /// A copy of the session.
    pub fn duplicate(&self) -> (s: Session)
        ensures
            s@ == self@,
    {
        Session {
            uuid: self.uuid,
            expire: self.expire,
            token: self.token.clone(),
            credit: self.credit,
            level: self.level,
        }
    }
}

/// Why a debit was not booked.
#[derive(Clone, Copy, Debug, PartialEq, Eq, Structural)]
pub enum DebitError {
    /// No session is stored under the token.
    NoSession,
    /// The balance cannot go that low.
    OutOfRange,
}

/// The session after `cost` was taken from its credit.
pub open spec fn charged(session: SessionView, cost: u64) -> SessionView {
    SessionView { credit: (session.credit - cost) as i64, ..session }
}

/// What a debit of `cost` on the session under `token` returns: the new
/// credit, or why nothing was booked.
pub open spec fn debit_result(table: Map<Seq<char>, SessionView>, token: Seq<char>, cost: u64)
    -> Result<i64, DebitError> {
    if !table.contains_key(token) {
        Err(DebitError::NoSession)
    } else if table[token].credit - cost < i64::MIN {
        Err(DebitError::OutOfRange)
    } else {
        Ok((table[token].credit - cost) as i64)
    }
}

/// The table after a debit of `cost` on the session under `token`: the
/// session is charged where the debit can be booked, and nothing else
/// changes.
pub open spec fn debited(table: Map<Seq<char>, SessionView>, token: Seq<char>, cost: u64) -> Map<
    Seq<char>,
    SessionView,
> {
    if debit_result(table, token, cost) is Ok {
        table.insert(token, charged(table[token], cost))
    } else {
        table
    }
}

/// The table after the debits of `debits` were made one after another, each
/// on the session under its token.
pub open spec fn run_debits(table: Map<Seq<char>, SessionView>, debits: Seq<(Seq<char>, u64)>)
    -> Map<Seq<char>, SessionView>
    decreases debits.len(),
{
    if debits.len() == 0 {
        table
    } else {
        debited(run_debits(table, debits.drop_last()), debits.last().0, debits.last().1)
    }
}

/// The sum of the debits among `debits` that are made on the session under
/// `token`.
pub open spec fn total_for(debits: Seq<(Seq<char>, u64)>, token: Seq<char>) -> int
    decreases debits.len(),
{
    if debits.len() == 0 {
        0
    } else {
        total_for(debits.drop_last(), token) + if debits.last().0 == token {
            debits.last().1 as int
        } else {
            0
        }
    }
}

/// A debit never raises the credit of a session, and changes nothing of the
/// session but its credit.
pub proof fn lemma_debit_never_raises_credit(
    table: Map<Seq<char>, SessionView>,
    token: Seq<char>,
    cost: u64,
)
    requires
        table.contains_key(token),
    ensures
        debited(table, token, cost).contains_key(token),
        debited(table, token, cost)[token].credit <= table[token].credit,
        debited(table, token, cost)[token] == (SessionView {
            credit: debited(table, token, cost)[token].credit,
            ..table[token]
        }),
        debit_result(table, token, cost) matches Ok(credit) ==> credit == table[token].credit
            - cost && debited(table, token, cost)[token].credit == credit,
        debit_result(table, token, cost) is Err ==> debited(table, token, cost) == table,
{
}

/// A debit on one session leaves every other session as it is, and neither
/// adds a session nor removes one.
pub proof fn lemma_debit_touches_one_session(
    table: Map<Seq<char>, SessionView>,
    token: Seq<char>,
    cost: u64,
    other: Seq<char>,
)
    requires
        other != token,
    ensures
        debited(table, token, cost).contains_key(other) == table.contains_key(other),
        debited(table, token, cost)[other] == table[other],
        debited(table, token, cost).dom() == table.dom(),
{
    assert(debited(table, token, cost).dom() =~= table.dom());
}

/// However the debits on different sessions are interleaved, the credit of
/// a session ends as what it began with less the sum of the debits made on
/// that session, as long as the credit can go that low.
pub proof fn lemma_debits_add_up(
    table: Map<Seq<char>, SessionView>,
    debits: Seq<(Seq<char>, u64)>,
    token: Seq<char>,
)
    requires
        table.contains_key(token),
        table[token].credit - total_for(debits, token) >= i64::MIN,
    ensures
        run_debits(table, debits).contains_key(token),
        run_debits(table, debits)[token].credit == table[token].credit - total_for(debits, token),
        run_debits(table, debits)[token] == (SessionView {
            credit: run_debits(table, debits)[token].credit,
            ..table[token]
        }),
        total_for(debits, token) >= 0,
    decreases debits.len(),
{
    if debits.len() > 0 {
        let earlier = debits.drop_last();
        lemma_total_is_not_negative(earlier, token);
        lemma_debits_add_up(table, earlier, token);
        let so_far = run_debits(table, earlier);
        if debits.last().0 == token {
            lemma_debit_never_raises_credit(so_far, token, debits.last().1);
        } else {
            lemma_debit_touches_one_session(so_far, debits.last().0, debits.last().1, token);
        }
    }
}

proof fn lemma_total_is_not_negative(debits: Seq<(Seq<char>, u64)>, token: Seq<char>)
    ensures
        total_for(debits, token) >= 0,
    decreases debits.len(),
{
    if debits.len() > 0 {
        lemma_total_is_not_negative(debits.drop_last(), token);
    }
}

/// The first `TOKEN_PREFIX` characters of a token, or all of it where it is
/// shorter.
pub open spec fn token_prefix(token: Seq<char>) -> Seq<char> {
    if token.len() <= TOKEN_PREFIX {
        token
    } else {
        token.subrange(0, TOKEN_PREFIX as int)
    }
}

/// One entry of the table, as the model sees it: a token and the session
/// stored under it.
struct Entry {
    key: Seq<char>,
    session: SessionView,
}

/// The entries that the two columns of a table stand for.
spec fn entries_of(keys: Seq<String>, sessions: Seq<Session>) -> Seq<Entry> {
    Seq::new(keys.len(), |i: int| Entry { key: keys[i]@, session: sessions[i]@ })
}

/// No token occurs twice in the column of keys.
spec fn distinct(keys: Seq<String>) -> bool {
    forall|i: int, j: int|
        0 <= i < keys.len() && 0 <= j < keys.len() && i != j ==> (#[trigger] keys[i])@
            != (#[trigger] keys[j])@
}

spec fn key_at(entries: Seq<Entry>, i: int) -> Seq<char> {
    entries[i].key
}

/// No token occurs twice among the entries.
spec fn distinct_keys(entries: Seq<Entry>) -> bool {
    forall|i: int, j: int|
        0 <= i < entries.len() && 0 <= j < entries.len() && i != j ==> #[trigger] key_at(
            entries,
            i,
        ) != #[trigger] key_at(entries, j)
}

/// Some entry is stored under `token`.
spec fn holds(entries: Seq<Entry>, token: Seq<char>) -> bool {
    exists|i: int| 0 <= i < entries.len() && #[trigger] key_at(entries, i) == token
}

/// Where the entry for `token` stands.
spec fn position(entries: Seq<Entry>, token: Seq<char>) -> int {
    choose|i: int| 0 <= i < entries.len() && #[trigger] key_at(entries, i) == token
}

/// The map that the entries stand for.
spec fn model(entries: Seq<Entry>) -> Map<Seq<char>, SessionView> {
    Map::new(
        |token: Seq<char>| holds(entries, token),
        |token: Seq<char>| entries[position(entries, token)].session,
    )
}

/// The tokens of the entries, in the order of the entries.
spec fn keys(entries: Seq<Entry>) -> Seq<Seq<char>> {
    Seq::new(entries.len(), |i: int| key_at(entries, i))
}

proof fn lemma_model_at(entries: Seq<Entry>, i: int)
    requires
        distinct_keys(entries),
        0 <= i < entries.len(),
    ensures
        model(entries).contains_key(key_at(entries, i)),
        model(entries)[key_at(entries, i)] == entries[i].session,
        position(entries, key_at(entries, i)) == i,
{
    let token = key_at(entries, i);
    assert(holds(entries, token));
    let p = position(entries, token);
    assert(key_at(entries, p) == token);
}

proof fn lemma_model_push(entries: Seq<Entry>, entry: Entry)
    requires
        distinct_keys(entries),
        !holds(entries, entry.key),
    ensures
        distinct_keys(entries.push(entry)),
        model(entries.push(entry)) == model(entries).insert(entry.key, entry.session),
        keys(entries.push(entry)) == keys(entries).push(entry.key),
{
    let grown = entries.push(entry);
    let n = entries.len() as int;
    assert forall|i: int, j: int| 0 <= i < grown.len() && 0 <= j < grown.len() && i != j implies #[trigger] key_at(
        grown, i) != #[trigger] key_at(grown, j) by {
        if i < n && j < n {
            assert(key_at(grown, i) == key_at(entries, i));
            assert(key_at(grown, j) == key_at(entries, j));
        } else if i < n {
            assert(key_at(grown, i) == key_at(entries, i));
        } else {
            assert(key_at(grown, j) == key_at(entries, j));
        }
    }
    let target = model(entries).insert(entry.key, entry.session);
    assert forall|token: Seq<char>| model(grown).contains_key(token) <==> target.contains_key(
        token,
    ) by {
        if holds(grown, token) {
            let i = position(grown, token);
            if i < n {
                assert(key_at(entries, i) == token);
            }
        }
        if holds(entries, token) {
            let i = position(entries, token);
            assert(key_at(grown, i) == token);
        }
        if token == entry.key {
            assert(key_at(grown, n) == token);
        }
    }
    assert forall|token: Seq<char>| model(grown).contains_key(token) implies model(grown)[token]
        == target[token] by {
        let i = position(grown, token);
        lemma_model_at(grown, i);
        if i < n {
            assert(key_at(entries, i) == token);
            lemma_model_at(entries, i);
        }
    }
    assert(model(grown) =~= target);
    assert(keys(grown) =~= keys(entries).push(entry.key));
}

proof fn lemma_model_update(entries: Seq<Entry>, i: int, entry: Entry)
    requires
        distinct_keys(entries),
        0 <= i < entries.len(),
        entry.key == key_at(entries, i),
    ensures
        distinct_keys(entries.update(i, entry)),
        model(entries.update(i, entry)) == model(entries).insert(entry.key, entry.session),
        keys(entries.update(i, entry)) == keys(entries),
{
    let changed = entries.update(i, entry);
    assert forall|j: int| 0 <= j < entries.len() implies #[trigger] key_at(changed, j) == key_at(
        entries,
        j,
    ) by {}
    assert forall|a: int, b: int| 0 <= a < changed.len() && 0 <= b < changed.len() && a
        != b implies #[trigger] key_at(changed, a) != #[trigger] key_at(changed, b) by {
        assert(key_at(changed, a) == key_at(entries, a));
        assert(key_at(changed, b) == key_at(entries, b));
    }
    let target = model(entries).insert(entry.key, entry.session);
    assert forall|token: Seq<char>| model(changed).contains_key(token) <==> target.contains_key(
        token,
    ) by {
        if holds(changed, token) {
            let j = position(changed, token);
            assert(key_at(entries, j) == token);
        }
        if holds(entries, token) {
            let j = position(entries, token);
            assert(key_at(changed, j) == token);
        }
        if token == entry.key {
            assert(key_at(changed, i) == token);
        }
    }
    assert forall|token: Seq<char>| model(changed).contains_key(token) implies model(
        changed,
    )[token] == target[token] by {
        let j = position(changed, token);
        lemma_model_at(changed, j);
        assert(key_at(entries, j) == token);
        lemma_model_at(entries, j);
    }
    assert(model(changed) =~= target);
    assert(keys(changed) =~= keys(entries));
}

proof fn lemma_model_remove(entries: Seq<Entry>, i: int)
    requires
        distinct_keys(entries),
        0 <= i < entries.len(),
    ensures
        distinct_keys(entries.remove(i)),
        model(entries.remove(i)) == model(entries).remove(key_at(entries, i)),
        keys(entries.remove(i)) == keys(entries).remove(i),
{
    let rest = entries.remove(i);
    let gone = key_at(entries, i);
    assert forall|j: int| 0 <= j < rest.len() implies #[trigger] key_at(rest, j) == key_at(
        entries,
        if j < i {
            j
        } else {
            j + 1
        },
    ) by {}
    assert forall|a: int, b: int| 0 <= a < rest.len() && 0 <= b < rest.len() && a != b implies #[trigger] key_at(
        rest, a) != #[trigger] key_at(rest, b) by {
        let a2 = if a < i { a } else { a + 1 };
        let b2 = if b < i { b } else { b + 1 };
        assert(key_at(rest, a) == key_at(entries, a2));
        assert(key_at(rest, b) == key_at(entries, b2));
    }
    let target = model(entries).remove(gone);
    assert forall|token: Seq<char>| model(rest).contains_key(token) <==> target.contains_key(
        token,
    ) by {
        if holds(rest, token) {
            let j = position(rest, token);
            let j2 = if j < i { j } else { j + 1 };
            assert(key_at(entries, j2) == token);
            assert(key_at(entries, j2) != key_at(entries, i));
        }
        if holds(entries, token) && token != gone {
            let j = position(entries, token);
            let j2 = if j < i { j } else { j - 1 };
            assert(key_at(rest, j2) == token);
        }
    }
    assert forall|token: Seq<char>| model(rest).contains_key(token) implies model(rest)[token]
        == target[token] by {
        let j = position(rest, token);
        let j2 = if j < i { j } else { j + 1 };
        lemma_model_at(rest, j);
        assert(key_at(entries, j2) == token);
        lemma_model_at(entries, j2);
    }
    assert(model(rest) =~= target);
    assert(keys(rest) =~= keys(entries).remove(i));
}

proof fn lemma_entries_distinct(keys: Seq<String>, sessions: Seq<Session>)
    requires
        distinct(keys),
    ensures
        distinct_keys(entries_of(keys, sessions)),
{
    let entries = entries_of(keys, sessions);
    assert forall|i: int, j: int|
        0 <= i < entries.len() && 0 <= j < entries.len() && i != j implies #[trigger] key_at(
        entries,
        i,
    ) != #[trigger] key_at(entries, j) by {
        assert(keys[i]@ != keys[j]@);
    }
}

proof fn lemma_distinct_entries(keys: Seq<String>, sessions: Seq<Session>)
    requires
        distinct_keys(entries_of(keys, sessions)),
    ensures
        distinct(keys),
{
    let entries = entries_of(keys, sessions);
    assert forall|i: int, j: int| 0 <= i < keys.len() && 0 <= j < keys.len() && i != j implies (
    #[trigger] keys[i])@ != (#[trigger] keys[j])@ by {
        assert(key_at(entries, i) != key_at(entries, j));
    }
}

/// The sessions that are open, each stored under its token.
pub struct SessionTable {
    keys: Vec<String>,
    sessions: Vec<Session>,
}

impl View for SessionTable {
    type V = Map<Seq<char>, SessionView>;

    closed spec fn view(&self) -> Map<Seq<char>, SessionView> {
        model(entries_of(self.keys@, self.sessions@))
    }
}

impl SessionTable {
    #[verifier::type_invariant]
    spec fn no_token_twice(self) -> bool {
        self.keys@.len() == self.sessions@.len() && distinct(self.keys@)
    }

    spec fn entries(&self) -> Seq<Entry> {
        entries_of(self.keys@, self.sessions@)
    }

    /// The tokens of the table, in the order in which they came in.
    pub closed spec fn tokens(&self) -> Seq<Seq<char>> {
        keys(entries_of(self.keys@, self.sessions@))
    }

    /// An empty table.
    pub fn new() -> (table: SessionTable)
        ensures
            table@ == Map::<Seq<char>, SessionView>::empty(),
            table.tokens() == Seq::<Seq<char>>::empty(),
    {
        let table = SessionTable { keys: Vec::new(), sessions: Vec::new() };
        assert(table@ =~= Map::<Seq<char>, SessionView>::empty());
        assert(table.tokens() =~= Seq::<Seq<char>>::empty());
        table
    }

    /// Where the entry for `token` stands, if there is one.
    fn find(&self, token: &str) -> (found: Option<usize>)
        ensures
            match found {
                Some(i) => i < self.keys@.len() && key_at(self.entries(), i as int) == token@,
                None => !holds(self.entries(), token@),
            },
    {
        let mut i: usize = 0;
        while i < self.keys.len()
            invariant
                i <= self.keys@.len(),
                forall|j: int| 0 <= j < i ==> #[trigger] key_at(self.entries(), j) != token@,
            decreases self.keys@.len() - i,
        {
            if str_eq(self.keys[i].as_str(), token) {
                return Some(i);
            }
            i += 1;
        }
        None
    }

    /// How many sessions the table holds.
    pub fn len(&self) -> (n: usize)
        ensures
            n == self@.dom().len(),
            self@.dom().finite(),
            n == self.tokens().len(),
            self.tokens().no_duplicates(),
    {
        proof {
            use_type_invariant(self);
            lemma_entries_distinct(self.keys@, self.sessions@);
            lemma_keys_are_domain(self.entries());
            self.tokens().unique_seq_to_set();
        }
        self.keys.len()
    }

    /// The tokens of the table are the keys of its map.
    pub proof fn lemma_tokens_are_keys(&self)
        ensures
            self@.dom() == self.tokens().to_set(),
            self@.dom().finite(),
    {
        lemma_keys_are_domain(self.entries());
    }

    /// Whether a session is stored under `token`.
    pub fn contains(&self, token: &str) -> (found: bool)
        ensures
            found == self@.contains_key(token@),
    {
        self.find(token).is_some()
    }

    /// The session stored under `token`, if there is one.
    pub fn get(&self, token: &str) -> (found: Option<&Session>)
        ensures
            match found {
                Some(session) => self@.contains_key(token@) && session@ == self@[token@],
                None => !self@.contains_key(token@),
            },
    {
        proof {
            use_type_invariant(self);
            lemma_entries_distinct(self.keys@, self.sessions@);
        }
        match self.find(token) {
            Some(i) => {
                proof {
                    lemma_model_at(self.entries(), i as int);
                }
                Some(&self.sessions[i])
            },
            None => None,
        }
    }

    /// The session stored under `token`, to be changed in place, if there is
    /// one. What is written to it is what the table then holds under
    /// `token`; every other session stays as it is, and no session comes or
    /// goes.
    pub fn get_mut(&mut self, token: &str) -> (found: Option<&mut Session>)
        ensures
            match found {
                Some(session) => old(self)@.contains_key(token@) && (*session)@ == old(self)@[token@]
                    && final(self)@ == old(self)@.insert(token@, (*final(session))@),
                None => !old(self)@.contains_key(token@) && final(self)@ == old(self)@,
            },
            final(self).tokens() == old(self).tokens(),
    {
        proof {
            use_type_invariant(&*self);
            lemma_entries_distinct(self.keys@, self.sessions@);
        }
        match self.find(token) {
            Some(i) => {
                proof {
                    lemma_model_at(self.entries(), i as int);
                    assert forall|changed: Session| #![auto]
                        entries_of(self.keys@, self.sessions@.update(i as int, changed))
                            == self.entries().update(
                            i as int,
                            Entry { key: token@, session: changed@ },
                        ) && model(
                            entries_of(self.keys@, self.sessions@.update(i as int, changed)),
                        ) == model(self.entries()).insert(token@, changed@) && keys(
                            entries_of(self.keys@, self.sessions@.update(i as int, changed)),
                        ) == keys(self.entries()) by {
                        let entry = Entry { key: token@, session: changed@ };
                        assert(entries_of(self.keys@, self.sessions@.update(i as int, changed))
                            =~= self.entries().update(i as int, entry));
                        lemma_model_update(self.entries(), i as int, entry);
                    }
                }
                Some(&mut self.sessions[i])
            },
            None => None,
        }
    }

    /// Stores `session` under `token`. A session that was stored under the
    /// same token is replaced; every other session stays as it is.
    pub fn insert(&mut self, token: String, session: Session)
        ensures
            final(self)@ == old(self)@.insert(token@, session@),
            final(self).tokens() == if old(self)@.contains_key(token@) {
                old(self).tokens()
            } else {
                old(self).tokens().push(token@)
            },
    {
        proof {
            use_type_invariant(&*self);
            lemma_entries_distinct(self.keys@, self.sessions@);
        }
        let found = self.find(token.as_str());
        let mut taken = SessionTable { keys: Vec::new(), sessions: Vec::new() };
        std::mem::swap(self, &mut taken);
        let SessionTable { keys: mut keys, sessions: mut sessions } = taken;
        let ghost before = entries_of(keys@, sessions@);
        let ghost entry = Entry { key: token@, session: session@ };
        match found {
            Some(i) => {
                sessions.set(i, session);
                proof {
                    lemma_model_update(before, i as int, entry);
                    assert(entries_of(keys@, sessions@) =~= before.update(i as int, entry));
                }
            },
            None => {
                keys.push(token);
                sessions.push(session);
                proof {
                    lemma_model_push(before, entry);
                    assert(entries_of(keys@, sessions@) =~= before.push(entry));
                }
            },
        }
        proof {
            lemma_distinct_entries(keys@, sessions@);
        }
        *self = SessionTable { keys, sessions };
    }

    /// Takes the session stored under `token` out of the table. Every other
    /// session stays as it is.
    pub fn remove(&mut self, token: &str) -> (removed: Option<Session>)
        ensures
            match removed {
                Some(session) => old(self)@.contains_key(token@) && session@ == old(self)@[token@]
                    && final(self)@ == old(self)@.remove(token@),
                None => !old(self)@.contains_key(token@) && final(self)@ == old(self)@,
            },
            final(self).tokens() == old(self).tokens().remove_value(token@),
    {
        proof {
            use_type_invariant(&*self);
            lemma_entries_distinct(self.keys@, self.sessions@);
        }
        match self.find(token) {
            Some(i) => {
                let mut taken = SessionTable { keys: Vec::new(), sessions: Vec::new() };
                std::mem::swap(self, &mut taken);
                let SessionTable { keys: mut keys, sessions: mut sessions } = taken;
                let ghost before = entries_of(keys@, sessions@);
                proof {
                    lemma_model_at(before, i as int);
                    lemma_model_remove(before, i as int);
                    lemma_keys_remove(before, i as int);
                }
                let _ = keys.remove(i);
                let session = sessions.remove(i);
                proof {
                    assert(entries_of(keys@, sessions@) =~= before.remove(i as int));
                    lemma_distinct_entries(keys@, sessions@);
                }
                *self = SessionTable { keys, sessions };
                Some(session)
            },
            None => {
                proof {
                    lemma_keys_absent(self.entries(), token@);
                }
                None
            },
        }
    }

    /// Takes `cost` from the credit of the session under `token` and returns
    /// the new credit. The credit may become negative. Where no session is
    /// stored under the token, or the credit cannot go that low, nothing is
    /// booked. No other session changes.
    pub fn debit(&mut self, token: &str, cost: u64) -> (res: Result<i64, DebitError>)
        ensures
            res == debit_result(old(self)@, token@, cost),
            final(self)@ == debited(old(self)@, token@, cost),
            final(self).tokens() == old(self).tokens(),
    {
        match self.get_mut(token) {
            None => Err(DebitError::NoSession),
            Some(session) => {
                let wide: i128 = session.credit as i128 - cost as i128;
                if wide < i64::MIN as i128 {
                    assert(session@ == (SessionView { ..session@ }));
                    Err(DebitError::OutOfRange)
                } else {
                    let left: i64 = wide as i64;
                    session.credit = left;
                    Ok(left)
                }
            },
        }
    }

    /// For each session, in the order of `tokens`, the beginning of its
    /// token and its credit.
    pub fn snapshot_credits(&self) -> (shown: Vec<(String, i64)>)
        ensures
            shown@.len() == self.tokens().len(),
            forall|i: int|
                0 <= i < shown@.len() ==> (#[trigger] shown@[i]).0@ == token_prefix(
                    self.tokens()[i],
                ) && shown@[i].1 == self@[self.tokens()[i]].credit,
    {
        proof {
            use_type_invariant(self);
            lemma_entries_distinct(self.keys@, self.sessions@);
        }
        let mut shown: Vec<(String, i64)> = Vec::new();
        let mut i: usize = 0;
        while i < self.keys.len()
            invariant
                i <= self.keys@.len(),
                self.keys@.len() == self.sessions@.len(),
                shown@.len() == i,
                forall|j: int|
                    0 <= j < i ==> (#[trigger] shown@[j]).0@ == token_prefix(
                        key_at(self.entries(), j),
                    ) && shown@[j].1 == self.sessions@[j].credit,
            decreases self.keys@.len() - i,
        {
            let key = self.keys[i].as_str();
            let n = key.unicode_len();
            let prefix = if n <= TOKEN_PREFIX {
                key.to_owned()
            } else {
                key.substring_char(0, TOKEN_PREFIX).to_owned()
            };
            shown.push((prefix, self.sessions[i].credit));
            i += 1;
        }
        proof {
            assert forall|j: int| 0 <= j < shown@.len() implies (#[trigger] shown@[j]).0@
                == token_prefix(self.tokens()[j]) && shown@[j].1
                == self@[self.tokens()[j]].credit by {
                lemma_model_at(self.entries(), j);
            }
        }
        shown
    }
}

proof fn lemma_keys_are_domain(entries: Seq<Entry>)
    ensures
        model(entries).dom() == keys(entries).to_set(),
        model(entries).dom().finite(),
        distinct_keys(entries) ==> keys(entries).no_duplicates(),
{
    let all = keys(entries);
    assert forall|token: Seq<char>| model(entries).dom().contains(token) <==> all.to_set().contains(
        token,
    ) by {
        if holds(entries, token) {
            let i = position(entries, token);
            assert(all[i] == token);
        }
        if all.contains(token) {
            let i = choose|i: int| 0 <= i < all.len() && all[i] == token;
            assert(key_at(entries, i) == token);
        }
    }
    assert(model(entries).dom() =~= all.to_set());
    vstd::seq_lib::seq_to_set_is_finite(all);
    if distinct_keys(entries) {
        assert forall|i: int, j: int| 0 <= i < all.len() && 0 <= j < all.len() && i != j implies all[i]
            != all[j] by {
            assert(key_at(entries, i) != key_at(entries, j));
        }
    }
}

proof fn lemma_keys_remove(entries: Seq<Entry>, i: int)
    requires
        distinct_keys(entries),
        0 <= i < entries.len(),
    ensures
        keys(entries).remove_value(key_at(entries, i)) == keys(entries).remove(i),
{
    let all = keys(entries);
    let token = key_at(entries, i);
    assert(all[i] == token);
    let first = all.index_of_first(token);
    all.index_of_first_ensures(token);
    assert(all.contains(token));
    let at = first.unwrap();
    assert(key_at(entries, at) == token);
    assert(at == i);
}

proof fn lemma_keys_absent(entries: Seq<Entry>, token: Seq<char>)
    requires
        !holds(entries, token),
    ensures
        keys(entries).remove_value(token) == keys(entries),
{
    let all = keys(entries);
    all.index_of_first_ensures(token);
    if all.contains(token) {
        let i = choose|i: int| 0 <= i < all.len() && all[i] == token;
        assert(key_at(entries, i) == token);
    }
}

} // verus!
