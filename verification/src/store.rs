//! The store of secrets: each name with the sealed blob of its value.

use vstd::prelude::*;
use crate::cipher::open;
use crate::cipher::opened_blob;
use crate::cipher::seal;
use crate::cipher::sealable;
use crate::cipher::seals;
use crate::cipher::wipe_text;
use crate::cipher::DecryptError;
use crate::cipher::DecryptKind;
use crate::cipher::EncryptionKey;
use crate::config::VarsView;
use crate::table::distinct_names;
use crate::table::has_name;
use crate::table::lookup;
use crate::table::names_of;
use crate::table::put;
use crate::table::texts;
use crate::table::Table;
use crate::text::lemma_name_order;
use crate::text::name_precedes;
use crate::text::precedes;

verus! {

/// The kinds of failure to have a secret from the store.
#[derive(Clone, Copy, Debug, PartialEq, Eq, Structural)]
pub enum StoreFailure {
    /// The store holds no secret of that name.
    NotFound,
    /// The secret is there, but its blob did not open.
    Decrypt(DecryptKind),
}

/// Why a secret could not be had from the store.
#[derive(Debug, PartialEq, Eq)]
pub enum StoreError {
    /// The store holds no secret of that name.
    NotFound,
    /// The secret is there, but its blob did not open.
    Decrypt(DecryptError),
}

impl View for StoreError {
    type V = StoreFailure;

    open spec fn view(&self) -> StoreFailure {
        match self {
            StoreError::NotFound => StoreFailure::NotFound,
            StoreError::Decrypt(error) => StoreFailure::Decrypt(error@),
        }
    }
}

impl StoreError {
    /// The kind of the failure.
    pub fn kind(&self) -> (kind: StoreFailure)
        ensures
            kind == self@,
    {
        match self {
            StoreError::NotFound => StoreFailure::NotFound,
            StoreError::Decrypt(error) => StoreFailure::Decrypt(error.kind()),
        }
    }
}

/// What looking up `name` and opening its blob under `key` gives.
pub open spec fn opened_secret(entries: VarsView, key: Seq<u8>, name: Seq<char>) -> Result<
    Seq<char>,
    StoreFailure,
> {
    match lookup(entries, name) {
        None => Err(StoreFailure::NotFound),
        Some(blob) => match opened_blob(key, blob) {
            Ok(text) => Ok(text),
            Err(kind) => Err(StoreFailure::Decrypt(kind)),
        },
    }
}

/// The upper-case form of `text`.
pub uninterp spec fn uppercased(text: Seq<char>) -> Seq<char>;

/// `str::to_uppercase`: the upper-case form of the text, which is named.
#[verifier::external_body]
fn to_uppercase(text: &str) -> (upper: String)
    ensures
        upper@ == uppercased(text@),
{
    text.to_uppercase()
}

/// The name under which a secret is kept: the given name in upper case.
pub fn normalize_name(name: &str) -> (normal: String)
    ensures
        normal@ == uppercased(name@),
{
    to_uppercase(name)
}

/// What is to be done with a secret that is to be added.
#[derive(Clone, Copy, Debug, PartialEq, Eq, Structural)]
pub enum AddDecision {
    /// The name is new: add the secret.
    Add,
    /// The name is taken and may be overwritten: put the secret in its place.
    Overwrite,
    /// The name is taken and may not be overwritten: leave the store as it is.
    Keep,
}

/// What is to be done with a secret called `name`, given whether the caller
/// allows a secret of that name to be replaced.
pub open spec fn add_decision(entries: VarsView, name: Seq<char>, overwrite: bool) -> AddDecision {
    if !has_name(entries, name) {
        AddDecision::Add
    } else if overwrite {
        AddDecision::Overwrite
    } else {
        AddDecision::Keep
    }
}

/// The names of `listing` come in strictly ascending order.
pub open spec fn ascending(listing: VarsView) -> bool {
    forall|i: int, j: int|
        0 <= i < j < listing.len() ==> name_precedes(
            #[trigger] listing[i].0,
            #[trigger] listing[j].0,
        )
}

/// `listing` holds exactly the entries of `entries`, in ascending order of
/// their names.
pub open spec fn is_listing(listing: VarsView, entries: VarsView) -> bool {
    &&& ascending(listing)
    &&& forall|i: int| 0 <= i < listing.len() ==> entries.contains(#[trigger] listing[i])
    &&& forall|j: int| 0 <= j < entries.len() ==> listing.contains(#[trigger] entries[j])
}

/// What a vector of listed entries stands for.
pub open spec fn listed<'a>(entries: Seq<(&'a str, EncryptedVariable<'a>)>) -> VarsView {
    Seq::new(entries.len(), |i: int| (entries[i].0@, entries[i].1@))
}

/// Two ascending sequences with the same members are the same sequence.
pub proof fn lemma_ascending_unique(a: VarsView, b: VarsView)
    requires
        ascending(a),
        ascending(b),
        forall|i: int| 0 <= i < a.len() ==> b.contains(#[trigger] a[i]),
        forall|j: int| 0 <= j < b.len() ==> a.contains(#[trigger] b[j]),
    ensures
        a == b,
    decreases a.len(),
{
    if a.len() == 0 {
        if b.len() > 0 {
            assert(a.contains(b[0]));
        }
        assert(a =~= b);
    } else {
        assert(b.contains(a[0]));
        let j = choose|j: int| 0 <= j < b.len() && b[j] == a[0];
        assert(a.contains(b[0]));
        let k = choose|k: int| 0 <= k < a.len() && a[k] == b[0];
        lemma_name_order(a[0].0, b[0].0, a[0].0);
        if j > 0 {
            assert(name_precedes(b[0].0, b[j].0));
            if k > 0 {
                assert(name_precedes(a[0].0, a[k].0));
            }
        }
        assert(a[0] == b[0]);
        let ta = a.skip(1);
        let tb = b.skip(1);
        assert forall|i: int| 0 <= i < ta.len() implies tb.contains(#[trigger] ta[i]) by {
            assert(ta[i] == a[i + 1]);
            assert(b.contains(a[i + 1]));
            let m = choose|m: int| 0 <= m < b.len() && b[m] == a[i + 1];
            assert(name_precedes(a[0].0, a[i + 1].0));
            lemma_name_order(a[0].0, a[0].0, a[0].0);
            assert(m > 0);
            assert(tb[m - 1] == b[m]);
        }
        assert forall|i: int| 0 <= i < tb.len() implies ta.contains(#[trigger] tb[i]) by {
            assert(tb[i] == b[i + 1]);
            assert(a.contains(b[i + 1]));
            let m = choose|m: int| 0 <= m < a.len() && a[m] == b[i + 1];
            assert(name_precedes(b[0].0, b[i + 1].0));
            lemma_name_order(b[0].0, b[0].0, b[0].0);
            assert(m > 0);
            assert(ta[m - 1] == a[m]);
        }
        assert forall|x: int, y: int| 0 <= x < y < ta.len() implies name_precedes(
            #[trigger] ta[x].0,
            #[trigger] ta[y].0,
        ) by {
            assert(ta[x] == a[x + 1] && ta[y] == a[y + 1]);
        }
        assert forall|x: int, y: int| 0 <= x < y < tb.len() implies name_precedes(
            #[trigger] tb[x].0,
            #[trigger] tb[y].0,
        ) by {
            assert(tb[x] == b[x + 1] && tb[y] == b[y + 1]);
        }
        lemma_ascending_unique(ta, tb);
        assert(a =~= seq![a[0]] + ta);
        assert(b =~= seq![b[0]] + tb);
    }
}

/// Any two listings of the same entries are the same sequence: listing a store
/// twice gives the same names in the same order.
pub proof fn lemma_listing_unique(first: VarsView, second: VarsView, entries: VarsView)
    requires
        is_listing(first, entries),
        is_listing(second, entries),
    ensures
        first == second,
{
    assert forall|i: int| 0 <= i < first.len() implies second.contains(#[trigger] first[i]) by {
        assert(entries.contains(first[i]));
        let j = choose|j: int| 0 <= j < entries.len() && entries[j] == first[i];
        assert(second.contains(entries[j]));
    }
    assert forall|i: int| 0 <= i < second.len() implies first.contains(#[trigger] second[i]) by {
        assert(entries.contains(second[i]));
        let j = choose|j: int| 0 <= j < entries.len() && entries[j] == second[i];
        assert(first.contains(entries[j]));
    }
    lemma_ascending_unique(first, second);
}

/// A sealed value of the store.
#[derive(Clone, Copy, Debug)]
pub struct EncryptedVariable<'a> {
    value: &'a str,
}

impl<'a> View for EncryptedVariable<'a> {
    type V = Seq<char>;

    closed spec fn view(&self) -> Seq<char> {
        self.value@
    }
}

impl<'a> EncryptedVariable<'a> {
    /// The sealed blob.
    pub fn blob(&self) -> (blob: &'a str)
        ensures
            blob@ == self@,
    {
        self.value
    }

    /// Opens the value under `key`, then wipes the key, whether the value
    /// opened or not.
    pub fn decrypt(self, key: &mut EncryptionKey) -> (opened: Result<
        DecryptedVariable,
        DecryptError,
    >)
        ensures
            opened matches Ok(variable) ==> opened_blob(old(key)@, self@) == Ok::<
                Seq<char>,
                DecryptKind,
            >(variable@),
            opened matches Err(error) ==> opened_blob(old(key)@, self@) == Err::<
                Seq<char>,
                DecryptKind,
            >(error@),
            final(key).wiped(),
    {
        let opened = open(key, self.value);
        key.wipe();
        match opened {
            Ok(value) => Ok(DecryptedVariable { value }),
            Err(error) => Err(error),
        }
    }
}

/// An opened value. It is meant for one use, and to be wiped after it.
#[derive(Debug)]
pub struct DecryptedVariable {
    value: String,
}

impl View for DecryptedVariable {
    type V = Seq<char>;

    closed spec fn view(&self) -> Seq<char> {
        self.value@
    }
}

impl DecryptedVariable {
    /// The opened value.
    pub fn value(&self) -> (text: &str)
        ensures
            text@ == self@,
    {
        self.value.as_str()
    }

    /// Overwrites the value and leaves it empty.
    pub fn wipe(&mut self)
        ensures
            final(self)@ == Seq::<char>::empty(),
    {
        wipe_text(&mut self.value);
    }
}

/// The store of all sealed secrets.
#[derive(Debug)]
pub struct Store {
    vars: Table<String>,
}

impl View for Store {
    type V = VarsView;

    closed spec fn view(&self) -> VarsView {
        self.vars@
    }
}

impl Store {
    /// The empty store: what a first run starts from.
    pub fn new() -> (store: Store)
        ensures
            store@ == Seq::<(Seq<char>, Seq<char>)>::empty(),
    {
        Store { vars: Table::new() }
    }

    /// The store of the given entries.
    pub fn from_table(vars: Table<String>) -> (store: Store)
        ensures
            store@ == vars@,
    {
        Store { vars }
    }

    /// The entries of the store.
    pub fn into_table(self) -> (vars: Table<String>)
        ensures
            vars@ == self@,
    {
        self.vars
    }

    /// The sealed value called `name`, by exact match.
    pub fn get<'a>(&'a self, name: &str) -> (found: Option<EncryptedVariable<'a>>)
        ensures
            found is Some <==> has_name(self@, name@),
            found matches Some(variable) ==> lookup(self@, name@) == Some(variable@),
    {
        match self.vars.get(name) {
            Some(value) => Some(EncryptedVariable { value: value.as_str() }),
            None => None,
        }
    }

    /// Tells whether the store holds a secret called `name`.
    pub fn contains(&self, name: &str) -> (found: bool)
        ensures
            found == has_name(self@, name@),
    {
        self.vars.contains(name)
    }

    /// Decides what is to be done with a secret that is to be added under
    /// `name`: a name that is taken is overwritten only where the caller says
    /// so.
    pub fn decide_add(&self, name: &str, overwrite: bool) -> (decision: AddDecision)
        ensures
            decision == add_decision(self@, name@, overwrite),
    {
        if !self.contains(name) {
            AddDecision::Add
        } else if overwrite {
            AddDecision::Overwrite
        } else {
            AddDecision::Keep
        }
    }

    /// Puts the sealed `blob` under `name`, in place of what was there.
    pub fn add_sealed(&mut self, name: String, blob: String)
        ensures
            final(self)@ == put(old(self)@, name@, blob@),
            lookup(final(self)@, name@) == Some(blob@),
            distinct_names(final(self)@),
    {
        self.vars.insert(name, blob);
    }

    /// Seals `value` under `key` and puts it under `name`, in place of what
    /// was there. The key is wiped. Nothing is written anywhere else.
    pub fn add(&mut self, name: String, value: &str, key: &mut EncryptionKey)
        requires
            sealable(value@),
        ensures
            exists|nonce: Seq<u8>, blob: Seq<char>|
                seals(old(key)@, nonce, value@, blob) && final(self)@ == put(
                    old(self)@,
                    name@,
                    blob,
                ),
            opened_secret(final(self)@, old(key)@, name@) == Ok::<Seq<char>, StoreFailure>(value@),
            final(key).wiped(),
    {
        let blob = seal(key, value);
        key.wipe();
        let ghost nonce = choose|nonce: Seq<u8>| seals(old(key)@, nonce, value@, blob@);
        let ghost before = self@;
        self.add_sealed(name, blob);
        assert(seals(old(key)@, nonce, value@, blob@) && self@ == put(before, name@, blob@));
    }

    /// The names of the secrets, in the order in which they were first added.
    /// No two of them are the same.
    pub fn keys(&self) -> (names: Vec<String>)
        ensures
            texts(names@) == names_of(self@),
            distinct_names(self@),
    {
        self.vars.names()
    }

    /// The places of the entries, in ascending order of their names.
    fn order(&self) -> (places: Vec<usize>)
        ensures
            distinct_names(self@),
            places@.len() == self@.len(),
            forall|k: int| 0 <= k < places@.len() ==> places@[k] < self@.len(),
            forall|p: usize| p < self@.len() ==> #[trigger] places@.contains(p),
            forall|x: int, y: int|
                0 <= x < y < places@.len() ==> name_precedes(
                    self@[#[trigger] places@[x] as int].0,
                    self@[#[trigger] places@[y] as int].0,
                ),
    {
        let n = self.vars.len();
        let mut places: Vec<usize> = Vec::new();
        let mut i: usize = 0;
        while i < n
            invariant
                i <= n,
                n == self@.len(),
                self@ == self.vars@,
                distinct_names(self@),
                places@.len() == i,
                forall|k: int| 0 <= k < places@.len() ==> places@[k] < i,
                forall|p: usize| p < i ==> #[trigger] places@.contains(p),
                forall|x: int, y: int|
                    0 <= x < y < places@.len() ==> name_precedes(
                        self@[#[trigger] places@[x] as int].0,
                        self@[#[trigger] places@[y] as int].0,
                    ),
            decreases n - i,
        {
            let name = self.vars.name_at(i);
            let mut at: usize = 0;
            while at < places.len() && precedes(self.vars.name_at(places[at]), name)
                invariant
                    at <= places@.len(),
                    i < n,
                    n == self@.len(),
                    self@ == self.vars@,
                    name@ == self@[i as int].0,
                    forall|k: int| 0 <= k < places@.len() ==> places@[k] < i,
                    forall|k: int|
                        0 <= k < at ==> name_precedes(
                            self@[#[trigger] places@[k] as int].0,
                            name@,
                        ),
                decreases places@.len() - at,
            {
                at += 1;
            }
            let ghost before = places@;
            places.insert(at, i);
            proof {
                assert forall|p: usize| p < i + 1 implies #[trigger] places@.contains(p) by {
                    if p < i {
                        assert(before.contains(p));
                        let k = choose|k: int| 0 <= k < before.len() && before[k] == p;
                        if k < at {
                            assert(places@[k] == p);
                        } else {
                            assert(places@[k + 1] == p);
                        }
                    } else {
                        assert(places@[at as int] == p);
                    }
                }
                assert forall|x: int, y: int| 0 <= x < y < places@.len() implies name_precedes(
                    self@[#[trigger] places@[x] as int].0,
                    self@[#[trigger] places@[y] as int].0,
                ) by {
                    let bx = if x < at { x } else { x - 1 };
                    let by = if y < at { y } else { y - 1 };
                    if x == at {
                        // the new name comes before what stood at `at` and after it
                        assert(places@[y] == before[y - 1]);
                        let first = before[at as int];
                        lemma_name_order(self@[first as int].0, name@, self@[before[by] as int].0);
                        lemma_name_order(name@, self@[first as int].0, self@[before[by] as int].0);
                        assert(self@[first as int].0 != name@);
                    } else if y == at {
                        assert(places@[x] == before[x]);
                    } else {
                        assert(places@[x] == before[bx]);
                        assert(places@[y] == before[by]);
                    }
                }
            }
            i += 1;
        }
        places
    }

    /// Every secret with its sealed value, in ascending order of the names.
    pub fn iter<'a>(&'a self) -> (entries: Vec<(&'a str, EncryptedVariable<'a>)>)
        ensures
            is_listing(listed(entries@), self@),
            entries@.len() == self@.len(),
            distinct_names(self@),
    {
        let places = self.order();
        let mut entries: Vec<(&'a str, EncryptedVariable<'a>)> = Vec::new();
        let mut i: usize = 0;
        while i < places.len()
            invariant
                i <= places@.len(),
                self@ == self.vars@,
                places@.len() == self@.len(),
                forall|k: int| 0 <= k < places@.len() ==> places@[k] < self@.len(),
                entries@.len() == i,
                forall|k: int|
                    0 <= k < i ==> (#[trigger] entries@[k]).0@ == self@[places@[k] as int].0
                        && entries@[k].1@ == self@[places@[k] as int].1,
            decreases places@.len() - i,
        {
            let at = places[i];
            let name = self.vars.name_at(at);
            let value = EncryptedVariable { value: self.vars.value_at(at).as_str() };
            entries.push((name, value));
            i += 1;
        }
        proof {
            let listing = listed(entries@);
            assert forall|k: int| 0 <= k < listing.len() implies self@.contains(
                #[trigger] listing[k],
            ) by {
                assert(listing[k] == self@[places@[k] as int]);
            }
            assert forall|j: int| 0 <= j < self@.len() implies listing.contains(
                #[trigger] self@[j],
            ) by {
                assert(places@.contains(j as usize));
                let k = choose|k: int| 0 <= k < places@.len() && places@[k] == j as usize;
                assert(listing[k] == self@[j]);
            }
            assert forall|x: int, y: int| 0 <= x < y < listing.len() implies name_precedes(
                #[trigger] listing[x].0,
                #[trigger] listing[y].0,
            ) by {
                assert(listing[x] == self@[places@[x] as int]);
                assert(listing[y] == self@[places@[y] as int]);
            }
        }
        entries
    }

    /// The opened value of the secret called `name`. The key is wiped whether
    /// a value is returned or not.
    pub fn decrypt_or_fail(&self, name: &str, key: &mut EncryptionKey) -> (opened: Result<
        DecryptedVariable,
        StoreError,
    >)
        ensures
            opened matches Ok(variable) ==> opened_secret(self@, old(key)@, name@) == Ok::<
                Seq<char>,
                StoreFailure,
            >(variable@),
            opened matches Err(error) ==> opened_secret(self@, old(key)@, name@) == Err::<
                Seq<char>,
                StoreFailure,
            >(error@),
            final(key).wiped(),
    {
        match self.get(name) {
            None => {
                key.wipe();
                Err(StoreError::NotFound)
            },
            Some(variable) => match variable.decrypt(key) {
                Ok(value) => Ok(value),
                Err(error) => Err(StoreError::Decrypt(error)),
            },
        }
    }

    /// The opened value of the secret called `name`, under a key that stays
    /// as it is.
    pub fn open_secret(&self, name: &str, key: &EncryptionKey) -> (opened: Result<
        DecryptedVariable,
        StoreError,
    >)
        ensures
            opened matches Ok(variable) ==> opened_secret(self@, key@, name@) == Ok::<
                Seq<char>,
                StoreFailure,
            >(variable@),
            opened matches Err(error) ==> opened_secret(self@, key@, name@) == Err::<
                Seq<char>,
                StoreFailure,
            >(error@),
    {
        match self.get(name) {
            None => Err(StoreError::NotFound),
            Some(variable) => match open(key, variable.blob()) {
                Ok(value) => Ok(DecryptedVariable { value }),
                Err(error) => Err(StoreError::Decrypt(error)),
            },
        }
    }
}

} // verus!
