//! A key-value store of strings on top of `sled`, and sets of strings kept
//! in it as JSON arrays.
use vstd::prelude::*;
use vstd::utf8::*;
use crate::wrappers::{strings_of_json, str_eq, json_decode_strings, json_encode_strings, json_error_text, str_trim, trimmed, db_contains_key, db_contents, db_get, db_insert, db_remove, sled_error_text, string_from_utf8, utf8_error_text};
use super::error::RaftError;

verus! {

broadcast use vstd::utf8::encode_utf8_decode_utf8, vstd::utf8::encode_utf8_valid_utf8;

/// The bytes under which a string key or value is stored.
pub open spec fn enc(s: Seq<char>) -> Seq<u8> {
    encode_utf8(s)
}

/// Whether the store holds the key.
pub open spec fn present(c: Map<Seq<u8>, Seq<u8>>, k: Seq<char>) -> bool {
    c.contains_key(enc(k))
}

/// The text stored under a key, where it is there and is valid UTF-8.
pub open spec fn stored_text(c: Map<Seq<u8>, Seq<u8>>, k: Seq<char>) -> Option<Seq<char>> {
    if present(c, k) && valid_utf8(c[enc(k)]) {
        Some(decode_utf8(c[enc(k)]))
    } else {
        None
    }
}

fn db_error(e: &sled::Error) -> (r: RaftError)
    ensures
        r is Db,
{
    RaftError::Db(sled_error_text(e))
}

/// Stores the value under the key.
pub fn insert(db: &mut sled::Db, k: &str, v: &str) -> (r: Result<(), RaftError>)
    ensures
        r is Ok ==> db_contents(*final(db)) == db_contents(*old(db)).insert(enc(k@), enc(v@)),
        r matches Err(e) ==> e is Db,
{
    match db_insert(db, k.as_bytes(), v.as_bytes()) {
        Ok(()) => Ok(()),
        Err(e) => Err(db_error(&e)),
    }
}

/// Whether the key is stored; `false` also where the store cannot answer.
pub fn contain(db: &sled::Db, k: &str) -> (r: bool)
    ensures
        r ==> present(db_contents(*db), k@),
        !present(db_contents(*db), k@) ==> !r,
{
    contain_answer(db_contains_key(db, k.as_bytes()))
}

/// What `contain` makes of the store's answer: `true` exactly where the store
/// answered that the key is present.
pub fn contain_answer(answer: Result<bool, sled::Error>) -> (r: bool)
    ensures
        r == (answer matches Ok(yes) && yes),
{
    match answer {
        Ok(yes) => yes,
        Err(_e) => false,
    }
}

/// What `get` makes of the store's answer for a key it found: the value as
/// text where it is valid UTF-8, the empty text where the store has no
/// value, a UTF-8 error or a store error otherwise.
pub fn fetched_text(fetched: Result<Option<Vec<u8>>, sled::Error>) -> (r: Result<String, RaftError>)
    ensures
        match fetched {
            Ok(Some(b)) => if valid_utf8(b@) {
                r matches Ok(s) && s@ == decode_utf8(b@)
            } else {
                r matches Err(e) && e is Utf8
            },
            Ok(None) => r matches Ok(s) && s@ == Seq::<char>::empty(),
            Err(_) => r matches Err(e) && e is Db,
        },
{
    match fetched {
        Ok(Some(bytes)) => {
            match string_from_utf8(bytes) {
                Ok(s) => Ok(s),
                Err(e) => Err(RaftError::Utf8(utf8_error_text(&e))),
            }
        },
        Ok(None) => Ok(String::new()),
        Err(e) => Err(db_error(&e)),
    }
}

/// The text stored under the key, or the empty text where it is absent.
/// Where the store cannot say whether the key is present, the answer is
/// the empty text too.
pub fn get(db: &sled::Db, k: &str) -> (r: Result<String, RaftError>)
    ensures
        !present(db_contents(*db), k@) ==> (r matches Ok(s) && s@ == Seq::<char>::empty()),
        r matches Ok(s) ==> s@ == Seq::<char>::empty() || stored_text(db_contents(*db), k@) == Some(s@),
        r matches Err(e) ==> (e is Db || (e is Utf8 && present(db_contents(*db), k@)
            && !valid_utf8(db_contents(*db)[enc(k@)]))),
{
    if !contain(db, k) {
        return Ok(String::new());
    }
    fetched_text(db_get(db, k.as_bytes()))
}

/// Removes the key. Where the store cannot say whether the key is present,
/// nothing is removed. No other key changes, whatever the store answers.
pub fn remove(db: &mut sled::Db, k: &str) -> (r: Result<(), RaftError>)
    ensures
        db_contents(*final(db)) == db_contents(*old(db)).remove(enc(k@))
            || db_contents(*final(db)) == db_contents(*old(db)),
        !present(db_contents(*old(db)), k@) ==> r is Ok && db_contents(*final(db)) == db_contents(*old(db)),
        r matches Err(e) ==> e is Db,
{
    if contain(db, k) {
        match db_remove(db, k.as_bytes()) {
            Ok(()) => {},
            Err(e) => return Err(db_error(&e)),
        }
    }
    Ok(())
}

} // verus!

verus! {

/// The set that a JSON text stands for: its strings where it is a JSON array
/// of strings, else the empty set.
pub open spec fn set_of_text(t: Seq<char>) -> Set<Seq<char>> {
    match strings_of_json(t) {
        Some(x) => x.to_set(),
        None => Set::empty(),
    }
}

/// The set stored under a key: empty where the key is absent or holds no
/// readable JSON array of strings.
pub open spec fn stored_set(c: Map<Seq<u8>, Seq<u8>>, k: Seq<char>) -> Set<Seq<char>> {
    match stored_text(c, k) {
        Some(t) => set_of_text(t),
        None => Set::empty(),
    }
}

/// The set a JSON text holds, where it holds one without repeats.
pub open spec fn json_holds_set(t: Seq<char>, s: Set<Seq<char>>) -> bool {
    &&& strings_of_json(t) is Some
    &&& strings_of_json(t).unwrap().no_duplicates()
    &&& strings_of_json(t).unwrap().to_set() == s
}

/// Whether a list of strings holds the given one.
pub(crate) fn contains_string(v: &Vec<String>, s: &str) -> (r: bool)
    ensures
        r == v.deep_view().contains(s@),
{
    let mut i: usize = 0;
    while i < v.len()
        invariant
            i <= v.len(),
            forall|j: int| 0 <= j < i ==> v.deep_view()[j] != s@,
        decreases v.len() - i,
    {
        if str_eq(v[i].as_str(), s) {
            assert(v.deep_view()[i as int] == s@);
            return true;
        }
        i = i + 1;
    }
    proof {
        if v.deep_view().contains(s@) {
            let j = choose|j: int| 0 <= j < v.deep_view().len() && v.deep_view()[j] == s@;
            assert(v.deep_view()[j] != s@);
        }
    }
    false
}

/// Appends the string unless the list already holds it.
pub(crate) fn push_unique(v: &mut Vec<String>, s: String)
    requires
        old(v).deep_view().no_duplicates(),
    ensures
        final(v).deep_view().no_duplicates(),
        final(v).deep_view().to_set() == old(v).deep_view().to_set().insert(s@),
{
    if !contains_string(v, s.as_str()) {
        let ghost before = v.deep_view();
        v.push(s);
        proof {
            assert(v.deep_view() =~= before.push(s@));
            before.lemma_push_to_set_commute(s@);
        }
    } else {
        proof {
            assert(v.deep_view().to_set() =~= v.deep_view().to_set().insert(s@));
        }
    }
}

/// The strings of the list, each once.
pub(crate) fn dedup_strings(items: Vec<String>) -> (r: Vec<String>)
    ensures
        r.deep_view().no_duplicates(),
        r.deep_view().to_set() == items.deep_view().to_set(),
{
    let mut out: Vec<String> = Vec::new();
    let mut i: usize = 0;
    while i < items.len()
        invariant
            i <= items.len(),
            out.deep_view().no_duplicates(),
            out.deep_view().to_set() == items.deep_view().take(i as int).to_set(),
        decreases items.len() - i,
    {
        let s = items[i].clone();
        push_unique(&mut out, s);
        proof {
            assert(items.deep_view().take(i + 1) =~= items.deep_view().take(i as int).push(items.deep_view()[i as int]));
            items.deep_view().take(i as int).lemma_push_to_set_commute(items.deep_view()[i as int]);
        }
        i = i + 1;
    }
    proof {
        assert(items.deep_view().take(i as int) =~= items.deep_view());
    }
    out
}

} // verus!

verus! {

/// The set after adding the trimmed text, unless it trims to nothing.
pub open spec fn with_item(base: Set<Seq<char>>, t: Seq<char>) -> Set<Seq<char>> {
    if trimmed(t).len() == 0 {
        base
    } else {
        base.insert(trimmed(t))
    }
}

/// The trimmed texts of a list, leaving out those that trim to nothing.
pub open spec fn trimmed_items(l: Seq<Seq<char>>) -> Set<Seq<char>> {
    Set::new(|t: Seq<char>| t.len() > 0 && exists|i: int| 0 <= i < l.len() && trimmed(l[i]) == t)
}

proof fn lemma_trimmed_items_push(l: Seq<Seq<char>>, x: Seq<char>)
    ensures
        trimmed_items(l.push(x)) == with_item(trimmed_items(l), x),
{
    let a = trimmed_items(l.push(x));
    let b = with_item(trimmed_items(l), x);
    assert forall|t: Seq<char>| a.contains(t) implies b.contains(t) by {
        let i = choose|i: int| 0 <= i < l.push(x).len() && trimmed(l.push(x)[i]) == t;
        if i < l.len() {
            assert(trimmed(l[i]) == t);
        }
    }
    assert forall|t: Seq<char>| b.contains(t) implies a.contains(t) by {
        if trimmed_items(l).contains(t) {
            let i = choose|i: int| 0 <= i < l.len() && trimmed(l[i]) == t;
            assert(trimmed(l.push(x)[i]) == t);
        } else {
            assert(trimmed(l.push(x)[l.len() as int]) == t);
        }
    }
    assert(a =~= b);
}

fn json_error(e: &serde_json::Error) -> (r: RaftError)
    ensures
        r is Json,
{
    RaftError::Json(json_error_text(e))
}

/// The set stored as JSON under the key; empty where the key is absent or
/// does not hold a JSON array of strings.
pub fn read_set(db: &sled::Db, dbk: &str) -> (r: Result<Vec<String>, RaftError>)
    ensures
        r matches Ok(v) ==> v.deep_view().no_duplicates() && (v.deep_view().to_set() == stored_set(
            db_contents(*db),
            dbk@,
        ) || v.deep_view().to_set() == Set::<Seq<char>>::empty()),
        !present(db_contents(*db), dbk@) ==> (r matches Ok(v) && v@.len() == 0),
        r matches Err(e) ==> (e is Db || (e is Utf8 && present(db_contents(*db), dbk@)
            && !valid_utf8(db_contents(*db)[enc(dbk@)]))),
{
    let a = get(db, dbk)?;
    Ok(set_from_text(a.as_str()))
}

/// The set stored as JSON under the key, read straight from the store: the
/// stored set where the key is present, the empty set where the store says
/// it is absent, and an error where the store cannot answer.
pub(crate) fn read_set_strict(db: &sled::Db, dbk: &str) -> (r: Result<Vec<String>, RaftError>)
    ensures
        r matches Ok(v) ==> v.deep_view().no_duplicates() && v.deep_view().to_set() == stored_set(
            db_contents(*db),
            dbk@,
        ),
        r matches Err(e) ==> (e is Db || (e is Utf8 && present(db_contents(*db), dbk@)
            && !valid_utf8(db_contents(*db)[enc(dbk@)]))),
{
    let text = fetched_text(db_get(db, dbk.as_bytes()))?;
    Ok(set_from_text(text.as_str()))
}

/// Removes the key straight from the store; an error where the store fails,
/// after which the key is gone or still there and nothing else changed.
pub(crate) fn remove_strict(db: &mut sled::Db, k: &str) -> (r: Result<(), RaftError>)
    ensures
        r is Ok ==> db_contents(*final(db)) == db_contents(*old(db)).remove(enc(k@)),
        db_contents(*final(db)) == db_contents(*old(db)).remove(enc(k@))
            || db_contents(*final(db)) == db_contents(*old(db)),
        r matches Err(e) ==> e is Db,
{
    match db_remove(db, k.as_bytes()) {
        Ok(()) => Ok(()),
        Err(e) => Err(db_error(&e)),
    }
}

/// What `read_set` makes of the stored text: the strings of the JSON array,
/// each once, or none where the text is not a JSON array of strings.
pub fn set_from_text(text: &str) -> (r: Vec<String>)
    ensures
        r.deep_view().no_duplicates(),
        r.deep_view().to_set() == set_of_text(text@),
        text@.len() == 0 ==> r@.len() == 0,
{
    match json_decode_strings(text) {
        Ok(items) => dedup_strings(items),
        Err(_e) => {
            let empty: Vec<String> = Vec::new();
            proof {
                assert(empty.deep_view() =~= Seq::<Seq<char>>::empty());
                assert(empty.deep_view().to_set() =~= Set::<Seq<char>>::empty());
            }
            empty
        },
    }
}

/// Adds the trimmed content to the set stored under the key, unless it
/// trims to nothing, stores the set's JSON and returns it.
pub fn update_set_from_str(db: &mut sled::Db, dbk: &str, content: &str) -> (r: Result<String, RaftError>)
    ensures
        r matches Ok(j) ==> {
            &&& json_holds_set(j@, with_item(stored_set(db_contents(*old(db)), dbk@), content@))
            &&& db_contents(*final(db)) == db_contents(*old(db)).insert(enc(dbk@), enc(j@))
        },
        r matches Err(e) ==> e is Db || (e is Utf8 && present(db_contents(*old(db)), dbk@) && !valid_utf8(db_contents(*old(db))[enc(dbk@)])),
{
    let mut peers = read_set_strict(db, dbk)?;
    let t = str_trim(content);
    if !t.is_empty() {
        push_unique(&mut peers, t.to_owned());
    } else {
        assert(peers.deep_view().to_set() == with_item(peers.deep_view().to_set(), content@));
    }
    let l_str = match json_encode_strings(&peers) {
        Ok(s) => s,
        Err(e) => return Err(json_error(&e)),
    };
    insert(db, dbk, l_str.as_str())?;
    Ok(l_str)
}

/// Adds each trimmed text of the list to the set under the key, leaving out
/// those that trim to nothing; stores the set's JSON and returns it.
pub fn update_set_from_set(db: &mut sled::Db, dbk: &str, l: &Vec<String>) -> (r: Result<String, RaftError>)
    ensures
        r matches Ok(j) ==> {
            &&& json_holds_set(j@, stored_set(db_contents(*old(db)), dbk@) + trimmed_items(l.deep_view()))
            &&& db_contents(*final(db)) == db_contents(*old(db)).insert(enc(dbk@), enc(j@))
        },
        !present(db_contents(*old(db)), dbk@) ==> (r matches Ok(j) ==> json_holds_set(
            j@,
            trimmed_items(l.deep_view()),
        )),
        r matches Err(e) ==> e is Db || (e is Utf8 && present(db_contents(*old(db)), dbk@) && !valid_utf8(db_contents(*old(db))[enc(dbk@)])),
{
    let mut peers = read_set_strict(db, dbk)?;
    let ghost base = peers.deep_view().to_set();
    proof {
        assert(l.deep_view().take(0) =~= Seq::<Seq<char>>::empty());
        assert(trimmed_items(Seq::<Seq<char>>::empty()) =~= Set::<Seq<char>>::empty());
        assert(base + Set::<Seq<char>>::empty() =~= base);
    }
    let mut i: usize = 0;
    while i < l.len()
        invariant
            i <= l.len(),
            peers.deep_view().no_duplicates(),
            peers.deep_view().to_set() == base + trimmed_items(l.deep_view().take(i as int)),
        decreases l.len() - i,
    {
        let t = str_trim(l[i].as_str());
        proof {
            assert(l.deep_view().take(i + 1) =~= l.deep_view().take(i as int).push(l.deep_view()[i as int]));
            lemma_trimmed_items_push(l.deep_view().take(i as int), l.deep_view()[i as int]);
        }
        if !t.is_empty() {
            push_unique(&mut peers, t.to_owned());
            assert(peers.deep_view().to_set() =~= base + trimmed_items(l.deep_view().take(i + 1)));
        } else {
            assert(peers.deep_view().to_set() =~= base + trimmed_items(l.deep_view().take(i + 1)));
        }
        i = i + 1;
    }
    proof {
        assert(l.deep_view().take(i as int) =~= l.deep_view());
        assert(Set::<Seq<char>>::empty() + trimmed_items(l.deep_view()) =~= trimmed_items(l.deep_view()));
    }
    let l_str = match json_encode_strings(&peers) {
        Ok(s) => s,
        Err(e) => return Err(json_error(&e)),
    };
    insert(db, dbk, l_str.as_str())?;
    Ok(l_str)
}

/// Replaces the set under the key with the trimmed texts of the list.
pub fn replace_set_from_set(db: &mut sled::Db, dbk: &str, l: &Vec<String>) -> (r: Result<String, RaftError>)
    ensures
        r matches Ok(j) ==> {
            &&& json_holds_set(j@, trimmed_items(l.deep_view()))
            &&& db_contents(*final(db)) == db_contents(*old(db)).insert(enc(dbk@), enc(j@))
        },
        r matches Err(e) ==> e is Db || (e is Utf8 && present(db_contents(*old(db)), dbk@) && !valid_utf8(db_contents(*old(db))[enc(dbk@)])),
{
    remove_strict(db, dbk)?;
    let ghost mid = db_contents(*db);
    let res = update_set_from_set(db, dbk, l);
    proof {
        assert(!present(mid, dbk@));
        if let Ok(j) = &res {
            assert(mid.insert(enc(dbk@), enc(j@)) =~= db_contents(*old(db)).insert(enc(dbk@), enc(j@)));
        }
    }
    res
}

/// Removes the text from the set stored under the key and stores the rest.
pub fn del_str_in_set(db: &mut sled::Db, dbk: &str, e: &str) -> (r: Result<(), RaftError>)
    ensures
        r is Ok ==> exists|j: Seq<char>| #![trigger enc(j)]
            {
                &&& json_holds_set(j, stored_set(db_contents(*old(db)), dbk@).remove(e@))
                &&& db_contents(*final(db)) == db_contents(*old(db)).insert(enc(dbk@), enc(j))
            },
        r matches Err(err) ==> err is Db || (err is Utf8 && present(db_contents(*old(db)), dbk@) && !valid_utf8(db_contents(*old(db))[enc(dbk@)])),
{
    let js = del_str_in_set_json(db, dbk, e)?;
    proof {
        let j = js@;
        assert(json_holds_set(j, stored_set(db_contents(*old(db)), dbk@).remove(e@)));
        assert(db_contents(*db) == db_contents(*old(db)).insert(enc(dbk@), enc(j)));
    }
    Ok(())
}

/// Removes the text from the set stored under the key, stores the rest and
/// returns its JSON.
pub(crate) fn del_str_in_set_json(db: &mut sled::Db, dbk: &str, e: &str) -> (r: Result<String, RaftError>)
    ensures
        r matches Ok(j) ==> {
            &&& json_holds_set(j@, stored_set(db_contents(*old(db)), dbk@).remove(e@))
            &&& db_contents(*final(db)) == db_contents(*old(db)).insert(enc(dbk@), enc(j@))
        },
        r matches Err(err) ==> err is Db || (err is Utf8 && present(db_contents(*old(db)), dbk@) && !valid_utf8(db_contents(*old(db))[enc(dbk@)])),
{
    let l = read_set_strict(db, dbk)?;
    let mut kept: Vec<String> = Vec::new();
    proof {
        assert(kept.deep_view() =~= Seq::<Seq<char>>::empty());
        assert(l.deep_view().take(0).to_set() =~= Set::<Seq<char>>::empty());
        assert(kept.deep_view().to_set() =~= Set::<Seq<char>>::empty());
    }
    let mut i: usize = 0;
    while i < l.len()
        invariant
            i <= l.len(),
            kept.deep_view().no_duplicates(),
            kept.deep_view().to_set() == l.deep_view().take(i as int).to_set().remove(e@),
        decreases l.len() - i,
    {
        proof {
            assert(l.deep_view().take(i + 1) =~= l.deep_view().take(i as int).push(l.deep_view()[i as int]));
            l.deep_view().take(i as int).lemma_push_to_set_commute(l.deep_view()[i as int]);
        }
        if !str_eq(l[i].as_str(), e) {
            push_unique(&mut kept, l[i].clone());
            assert(kept.deep_view().to_set() =~= l.deep_view().take(i + 1).to_set().remove(e@));
        } else {
            assert(kept.deep_view().to_set() =~= l.deep_view().take(i + 1).to_set().remove(e@));
        }
        i = i + 1;
    }
    proof {
        assert(l.deep_view().take(i as int) =~= l.deep_view());
        assert(Set::<Seq<char>>::empty().remove(e@) =~= Set::<Seq<char>>::empty());
    }
    let js = match json_encode_strings(&kept) {
        Ok(s) => s,
        Err(err) => return Err(json_error(&err)),
    };
    insert(db, dbk, js.as_str())?;
    Ok(js)
}

} // verus!

verus! {

/// What a write stores, a read gives back: after the value is stored under
/// the key, the text stored under the key is the value.
pub proof fn lemma_read_after_insert(c: Map<Seq<u8>, Seq<u8>>, k: Seq<char>, v: Seq<char>)
    ensures
        present(c.insert(enc(k), enc(v)), k),
        stored_text(c.insert(enc(k), enc(v)), k) == Some(v),
{
}

/// What a set update stores, a set read gives back: where the stored JSON
/// holds a set, the set stored under the key is that set.
pub proof fn lemma_read_set_after_store(c: Map<Seq<u8>, Seq<u8>>, k: Seq<char>, j: Seq<char>, s: Set<Seq<char>>)
    requires
        json_holds_set(j, s),
    ensures
        stored_set(c.insert(enc(k), enc(j)), k) == s,
{
}

/// Removing a key leaves it absent, so that a later read finds the empty
/// text and the empty set.
pub proof fn lemma_read_after_remove(c: Map<Seq<u8>, Seq<u8>>, k: Seq<char>)
    ensures
        !present(c.remove(enc(k)), k),
        stored_set(c.remove(enc(k)), k) == Set::<Seq<char>>::empty(),
{
}

} // verus!

verus! {

/// A text that neither starts nor ends with white space trims to itself.
pub proof fn lemma_trimmed_plain(t: Seq<char>)
    requires
        t.len() > 0,
        !crate::wrappers::is_white_space(t[0]),
        !crate::wrappers::is_white_space(t.last()),
    ensures
        trimmed(t) == t,
{
    assert(crate::wrappers::trim_start(t) == t);
    assert(crate::wrappers::trim_end(t) == t);
}

} // verus!

verus! {

/// The set that a JSON text holds, read as a set.
pub open spec fn json_set(j: Seq<char>) -> Set<Seq<char>> {
    strings_of_json(j).unwrap().to_set()
}

/// Adding a text to a stored set keeps every stored item: what
/// `update_set_from_str` answers holds every item of the set stored before,
/// the trimmed text where it is not blank, and nothing else.
pub proof fn lemma_update_keeps_stored(c: Map<Seq<u8>, Seq<u8>>, k: Seq<char>, content: Seq<char>, j: Seq<char>)
    requires
        json_holds_set(j, with_item(stored_set(c, k), content)),
    ensures
        forall|x: Seq<char>| stored_set(c, k).contains(x) ==> #[trigger] json_set(j).contains(x),
        trimmed(content).len() > 0 ==> json_set(j).contains(trimmed(content)),
        forall|x: Seq<char>| #[trigger] json_set(j).contains(x) ==> stored_set(c, k).contains(x) || x == trimmed(content),
        trimmed(content).len() == 0 ==> json_set(j) == stored_set(c, k),
{
}

/// Adding a list to a stored set keeps every stored item: what
/// `update_set_from_set` answers holds every item of the set stored before,
/// every non-blank trimmed text of the list, and nothing else.
pub proof fn lemma_update_from_set_keeps_stored(c: Map<Seq<u8>, Seq<u8>>, k: Seq<char>, l: Seq<Seq<char>>, j: Seq<char>)
    requires
        json_holds_set(j, stored_set(c, k) + trimmed_items(l)),
    ensures
        forall|x: Seq<char>| stored_set(c, k).contains(x) ==> #[trigger] json_set(j).contains(x),
        forall|i: int| 0 <= i < l.len() && trimmed(#[trigger] l[i]).len() > 0 ==> json_set(j).contains(trimmed(l[i])),
        forall|x: Seq<char>| #[trigger] json_set(j).contains(x) ==> stored_set(c, k).contains(x)
            || exists|i: int| 0 <= i < l.len() && trimmed(l[i]) == x,
{
    assert forall|i: int| 0 <= i < l.len() && trimmed(#[trigger] l[i]).len() > 0 implies json_set(j).contains(trimmed(l[i])) by {
        assert(trimmed_items(l).contains(trimmed(l[i])));
    }
}

/// Replacing a set drops what was stored: what `replace_set_from_set`
/// answers holds exactly the non-blank trimmed texts of the list.
pub proof fn lemma_replace_holds_only_list(l: Seq<Seq<char>>, j: Seq<char>)
    requires
        json_holds_set(j, trimmed_items(l)),
    ensures
        forall|x: Seq<char>| #[trigger] json_set(j).contains(x) <==> x.len() > 0 && exists|i: int| 0 <= i < l.len() && trimmed(l[i]) == x,
{
}

} // verus!
