use vstd::prelude::*;

verus! {

/// Whether the user has completed the external authentication flow.
#[derive(Clone, Copy, Debug, PartialEq, Eq, Structural)]
pub struct LoginState {
    pub logged_in: bool,
}

/// The session state that a load yields from what the store handed back.
pub open spec fn loaded_state(stored: Option<LoginState>) -> LoginState {
    match stored {
        Some(s) => s,
        None => LoginState { logged_in: false },
    }
}

/// Loading with no readable record gives the logged-out state, and loading
/// what a save left gives back the state that was saved, however often it
/// was saved.
pub proof fn law_session_load(saved: LoginState)
    ensures
        !loaded_state(None).logged_in,
        loaded_state(Some(saved)) == saved,
{
}

impl LoginState {
    /// The state of an installation that has no record yet.
    pub fn logged_out() -> (r: LoginState)
        ensures
            !r.logged_in,
    {
        LoginState { logged_in: false }
    }

    /// What a load yields from what the store handed back: a record that was
    /// read and decoded is kept, and anything else (no record, unreadable or
    /// malformed data) falls back to the logged-out state. Loading never fails.
    pub fn from_stored(stored: Option<LoginState>) -> (r: LoginState)
        ensures
            r == loaded_state(stored),
    {
        match stored {
            Some(s) => s,
            None => LoginState::logged_out(),
        }
    }

    /// Records a successful authentication.
    pub fn mark_logged_in(&mut self)
        ensures
            final(self).logged_in,
    {
        self.logged_in = true;
    }
}

/// The hint map that a sequence of (filename, hint) entries stands for.
pub open spec fn hint_map(e: Seq<(String, String)>) -> Map<Seq<char>, Seq<char>> {
    Map::new(
        |k: Seq<char>| exists|i: int| 0 <= i < e.len() && #[trigger] e[i].0@ == k,
        |k: Seq<char>| e[choose|i: int| 0 <= i < e.len() && #[trigger] e[i].0@ == k].1@,
    )
}

/// No filename occurs twice among the entries.
pub open spec fn keys_unique(e: Seq<(String, String)>) -> bool {
    forall|i: int, j: int|
        0 <= i < e.len() && 0 <= j < e.len() && i != j ==> #[trigger] e[i].0@ != #[trigger] e[j].0@
}

/// The registry of one repository: secured-note filename to password hint.
/// A filename that is absent has no hint.
pub struct NoteDatabase {
    password_hints: Vec<(String, String)>,
}

impl View for NoteDatabase {
    type V = Map<Seq<char>, Seq<char>>;

    closed spec fn view(&self) -> Map<Seq<char>, Seq<char>> {
        hint_map(self.password_hints@)
    }
}

proof fn lemma_lookup(e: Seq<(String, String)>, i: int)
    requires
        keys_unique(e),
        0 <= i < e.len(),
    ensures
        hint_map(e).contains_key(e[i].0@),
        hint_map(e)[e[i].0@] == e[i].1@,
{
    let k = e[i].0@;
    assert(exists|j: int| 0 <= j < e.len() && #[trigger] e[j].0@ == k);
    let j = choose|j: int| 0 <= j < e.len() && #[trigger] e[j].0@ == k;
    assert(j == i);
}


proof fn lemma_push(e: Seq<(String, String)>, x: (String, String))
    requires
        keys_unique(e),
        forall|i: int| 0 <= i < e.len() ==> #[trigger] e[i].0@ != x.0@,
    ensures
        keys_unique(e.push(x)),
        hint_map(e.push(x)) == hint_map(e).insert(x.0@, x.1@),
{
    let e1 = e.push(x);
    let n = e.len() as int;
    assert forall|a: int, b: int|
        0 <= a < e1.len() && 0 <= b < e1.len() && a != b implies #[trigger] e1[a].0@
        != #[trigger] e1[b].0@ by {
        if a < n && b < n {
            assert(e1[a] == e[a] && e1[b] == e[b]);
        } else if a < n {
            assert(e1[a] == e[a]);
        } else {
            assert(e1[b] == e[b]);
        }
    }
    assert forall|k: Seq<char>| #[trigger]
        hint_map(e1).contains_key(k) == hint_map(e).insert(x.0@, x.1@).contains_key(k) by {
        if hint_map(e).contains_key(k) {
            let j = choose|j: int| 0 <= j < e.len() && #[trigger] e[j].0@ == k;
            assert(e1[j].0@ == k);
        }
        if k == x.0@ {
            assert(e1[n].0@ == k);
        }
        if hint_map(e1).contains_key(k) && k != x.0@ {
            let j = choose|j: int| 0 <= j < e1.len() && #[trigger] e1[j].0@ == k;
            assert(e[j].0@ == k);
        }
    }
    assert forall|k: Seq<char>| #[trigger] hint_map(e1).contains_key(k) implies hint_map(e1)[k]
        == hint_map(e).insert(x.0@, x.1@)[k] by {
        let j = choose|j: int| 0 <= j < e1.len() && #[trigger] e1[j].0@ == k;
        lemma_lookup(e1, j);
        if j != n {
            assert(e1[j] == e[j]);
            lemma_lookup(e, j);
        }
    }
    assert(hint_map(e1) =~= hint_map(e).insert(x.0@, x.1@));
}

proof fn lemma_remove(e: Seq<(String, String)>, i: int)
    requires
        keys_unique(e),
        0 <= i < e.len(),
    ensures
        keys_unique(e.remove(i)),
        hint_map(e.remove(i)) == hint_map(e).remove(e[i].0@),
{
    let e1 = e.remove(i);
    let k0 = e[i].0@;
    assert forall|a: int, b: int|
        0 <= a < e1.len() && 0 <= b < e1.len() && a != b implies #[trigger] e1[a].0@
        != #[trigger] e1[b].0@ by {
        let a0 = if a < i { a } else { a + 1 };
        let b0 = if b < i { b } else { b + 1 };
        assert(e1[a] == e[a0] && e1[b] == e[b0]);
    }
    assert forall|k: Seq<char>| #[trigger]
        hint_map(e1).contains_key(k) == hint_map(e).remove(k0).contains_key(k) by {
        if hint_map(e).contains_key(k) && k != k0 {
            let j = choose|j: int| 0 <= j < e.len() && #[trigger] e[j].0@ == k;
            if j < i {
                assert(e1[j].0@ == k);
            } else {
                assert(e1[j - 1].0@ == k);
            }
        }
        if hint_map(e1).contains_key(k) {
            let j = choose|j: int| 0 <= j < e1.len() && #[trigger] e1[j].0@ == k;
            let j0 = if j < i { j } else { j + 1 };
            assert(e[j0].0@ == k);
        }
    }
    assert forall|k: Seq<char>| #[trigger] hint_map(e1).contains_key(k) implies hint_map(e1)[k]
        == hint_map(e).remove(k0)[k] by {
        let j = choose|j: int| 0 <= j < e1.len() && #[trigger] e1[j].0@ == k;
        let j0 = if j < i { j } else { j + 1 };
        lemma_lookup(e1, j);
        assert(e1[j] == e[j0]);
        lemma_lookup(e, j0);
    }
    assert(hint_map(e1) =~= hint_map(e).remove(k0));
}

/// The registry that recording each entry in turn, later ones overriding
/// earlier ones, builds on top of `m`.
pub open spec fn insert_all(m: Map<Seq<char>, Seq<char>>, p: Seq<(String, String)>) -> Map<
    Seq<char>,
    Seq<char>,
>
    decreases p.len(),
{
    if p.len() == 0 {
        m
    } else {
        insert_all(m, p.drop_last()).insert(p.last().0@, p.last().1@)
    }
}

proof fn lemma_insert_all_unique(p: Seq<(String, String)>)
    requires
        keys_unique(p),
    ensures
        insert_all(Map::empty(), p) == hint_map(p),
    decreases p.len(),
{
    if p.len() == 0 {
        assert(hint_map(p) =~= Map::<Seq<char>, Seq<char>>::empty());
    } else {
        let q = p.drop_last();
        let n = q.len() as int;
        assert forall|a: int, b: int|
            0 <= a < q.len() && 0 <= b < q.len() && a != b implies #[trigger] q[a].0@
            != #[trigger] q[b].0@ by {
            assert(q[a] == p[a] && q[b] == p[b]);
        }
        lemma_insert_all_unique(q);
        assert forall|i: int| 0 <= i < q.len() implies #[trigger] q[i].0@ != p.last().0@ by {
            assert(q[i] == p[i]);
        }
        lemma_push(q, p.last());
        assert(q.push(p.last()) =~= p);
    }
}

impl NoteDatabase {
    #[verifier::type_invariant]
    pub closed spec fn wf(&self) -> bool {
        keys_unique(self.password_hints@)
    }

    /// An empty registry.
    pub fn new() -> (r: NoteDatabase)
        ensures
            r@ == Map::<Seq<char>, Seq<char>>::empty(),
    {
        let r = NoteDatabase { password_hints: Vec::new() };
        assert(r@ =~= Map::<Seq<char>, Seq<char>>::empty());
        r
    }

    /// What a load yields from what the store handed back: a registry that was
    /// read and decoded is kept, and anything else falls back to an empty one.
    /// Loading never fails.
    pub fn from_stored(stored: Option<NoteDatabase>) -> (r: NoteDatabase)
        ensures
            r@ == (match stored {
                Some(d) => d@,
                None => Map::<Seq<char>, Seq<char>>::empty(),
            }),
    {
        match stored {
            Some(d) => d,
            None => NoteDatabase::new(),
        }
    }

    /// The position of the entry for `file`, if there is one.
    fn find(&self, file: &str) -> (r: Option<usize>)
        ensures
            match r {
                Some(i) => i < self.password_hints@.len() && self.password_hints@[i as int].0@
                    == file@,
                None => forall|i: int|
                    0 <= i < self.password_hints@.len() ==> #[trigger] self.password_hints@[i].0@
                        != file@,
            },
    {
        let key = file.to_owned();
        let mut i: usize = 0;
        while i < self.password_hints.len()
            invariant
                i <= self.password_hints@.len(),
                key@ == file@,
                forall|j: int| 0 <= j < i ==> #[trigger] self.password_hints@[j].0@ != file@,
            decreases self.password_hints@.len() - i,
        {
            if self.password_hints[i].0 == key {
                return Some(i);
            }
            i = i + 1;
        }
        None
    }

    /// The hint recorded for `file`, or `None` when there is none.
    pub fn get_password_hint(&self, file: &str) -> (r: Option<String>)
        ensures
            match r {
                Some(h) => self@.contains_key(file@) && h@ == self@[file@],
                None => !self@.contains_key(file@),
            },
    {
        proof {
            use_type_invariant(self);
        }
        match self.find(file) {
            Some(i) => {
                let h = self.password_hints[i].1.clone();
                proof {
                    lemma_lookup(self.password_hints@, i as int);
                }
                Some(h)
            },
            None => None,
        }
    }

    /// The hint recorded for `file`, or the text `No hint` when there is none.
    pub fn get_password_hint_with_default(&self, file: &str) -> (r: String)
        ensures
            r@ == (if self@.contains_key(file@) {
                self@[file@]
            } else {
                "No hint"@
            }),
    {
        match self.get_password_hint(file) {
            Some(h) => h,
            None => "No hint".to_owned(),
        }
    }

    /// Records `hint` for `file`, replacing any earlier hint for it.
    pub fn set_password_hint(&mut self, file: &str, hint: String)
        ensures
            final(self)@ == old(self)@.insert(file@, hint@),
    {
        proof {
            use_type_invariant(&*self);
        }
        let ghost e0 = self.password_hints@;
        let found = self.find(file);
        let mut held = NoteDatabase::new();
        core::mem::swap(self, &mut held);
        let mut v = held.password_hints;
        match found {
            Some(i) => {
                let key = v[i].0.clone();
                v.set(i, (key, hint));
                proof {
                    let e1 = v@;
                    assert(keys_unique(e1));
                    assert forall|k: Seq<char>| #[trigger]
                        hint_map(e1).contains_key(k) == hint_map(e0).insert(
                            file@,
                            hint@,
                        ).contains_key(k) by {
                        if hint_map(e0).contains_key(k) {
                            let j = choose|j: int| 0 <= j < e0.len() && #[trigger] e0[j].0@ == k;
                            assert(e1[j].0@ == k);
                        }
                        if hint_map(e1).contains_key(k) {
                            let j = choose|j: int| 0 <= j < e1.len() && #[trigger] e1[j].0@ == k;
                            assert(e0[j].0@ == k);
                        }
                    }
                    assert forall|k: Seq<char>| #[trigger] hint_map(e1).contains_key(k) implies hint_map(
                        e1,
                    )[k] == hint_map(e0).insert(file@, hint@)[k] by {
                        let j = choose|j: int| 0 <= j < e1.len() && #[trigger] e1[j].0@ == k;
                        lemma_lookup(e1, j);
                        if j != i {
                            lemma_lookup(e0, j);
                        }
                    }
                    assert(hint_map(e1) =~= hint_map(e0).insert(file@, hint@));
                }
            },
            None => {
                let entry = (file.to_owned(), hint);
                proof {
                    lemma_push(e0, entry);
                }
                v.push(entry);
            },
        }
        *self = NoteDatabase { password_hints: v };
    }

    /// Forgets the hint for `file`, if there is one.
    pub fn remove_password_hint(&mut self, file: &str)
        ensures
            final(self)@ == old(self)@.remove(file@),
    {
        proof {
            use_type_invariant(&*self);
        }
        let ghost e0 = self.password_hints@;
        let found = self.find(file);
        match found {
            Some(i) => {
                let mut held = NoteDatabase::new();
                core::mem::swap(self, &mut held);
                let mut v = held.password_hints;
                proof {
                    lemma_remove(e0, i as int);
                }
                v.remove(i);
                *self = NoteDatabase { password_hints: v };
            },
            None => {
                assert(self@ =~= self@.remove(file@));
            },
        }
    }

    /// The recorded (filename, hint) pairs, each filename once: the form in
    /// which a registry is written to its store.
    pub fn hint_entries(&self) -> (r: Vec<(String, String)>)
        ensures
            keys_unique(r@),
            hint_map(r@) == self@,
    {
        proof {
            use_type_invariant(self);
        }
        let mut r: Vec<(String, String)> = Vec::new();
        let mut i: usize = 0;
        while i < self.password_hints.len()
            invariant
                i <= self.password_hints@.len(),
                r@ == self.password_hints@.subrange(0, i as int),
            decreases self.password_hints@.len() - i,
        {
            let k = self.password_hints[i].0.clone();
            let h = self.password_hints[i].1.clone();
            r.push((k, h));
            assert(r@ =~= self.password_hints@.subrange(0, i + 1));
            i = i + 1;
        }
        assert(r@ =~= self.password_hints@);
        r
    }

    /// The registry that recording each pair in turn into an empty one gives:
    /// the form in which a registry is read back from its store.
    pub fn from_hints(pairs: Vec<(String, String)>) -> (r: NoteDatabase)
        ensures
            r@ == insert_all(Map::empty(), pairs@),
    {
        let mut r = NoteDatabase::new();
        let mut i: usize = 0;
        while i < pairs.len()
            invariant
                i <= pairs@.len(),
                r@ == insert_all(Map::empty(), pairs@.subrange(0, i as int)),
            decreases pairs@.len() - i,
        {
            proof {
                assert(pairs@.subrange(0, i + 1).drop_last() =~= pairs@.subrange(0, i as int));
            }
            r.set_password_hint(pairs[i].0.as_str(), pairs[i].1.clone());
            i = i + 1;
        }
        assert(pairs@.subrange(0, pairs@.len() as int) =~= pairs@);
        r
    }
}

/// Setting a hint and then asking for it gives that hint back.
pub proof fn law_hint_round_trip(d: NoteDatabase, file: Seq<char>, hint: Seq<char>)
    ensures
        d@.insert(file, hint).contains_key(file),
        d@.insert(file, hint)[file] == hint,
{
}

/// Writing a registry's entries to its store and reading them back gives the
/// same hints: entries that name each filename once, recorded in turn into an
/// empty registry, rebuild the map they stand for.
pub proof fn law_store_round_trip(entries: Seq<(String, String)>)
    requires
        keys_unique(entries),
    ensures
        insert_all(Map::empty(), entries) == hint_map(entries),
{
    lemma_insert_all_unique(entries);
}

} // verus!
