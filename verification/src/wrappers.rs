//! The calls this library makes into `sled`, `serde_json` and a few std
//! functions that vstd leaves without a specification. The contracts below
//! are trusted, not proved; each doc comment says what is claimed.
use vstd::prelude::*;
use vstd::utf8::*;

verus! {

/// The on-disk key-value database of `sled`.
#[verifier::external_type_specification]
#[verifier::external_body]
pub struct ExSledDb(sled::Db);

/// The error that `sled` operations return.
#[verifier::external_type_specification]
#[verifier::external_body]
pub struct ExSledError(sled::Error);

/// The error that `serde_json` returns.
#[verifier::external_type_specification]
#[verifier::external_body]
pub struct ExJsonError(serde_json::Error);

/// The error of `String::from_utf8`.
#[verifier::external_type_specification]
#[verifier::external_body]
pub struct ExFromUtf8Error(std::string::FromUtf8Error);

/// What the default tree of a `sled::Db` holds: byte keys mapped to byte values.
pub uninterp spec fn db_contents(db: sled::Db) -> Map<Seq<u8>, Seq<u8>>;

/// The text that `serde_json::to_string` makes of a list of strings.
pub uninterp spec fn json_of_strings(items: Seq<Seq<char>>) -> Seq<char>;

/// What `serde_json::from_str` reads as a list of strings: `None` where the
/// text is not a JSON array of strings.
pub uninterp spec fn strings_of_json(text: Seq<char>) -> Option<Seq<Seq<char>>>;

/// Whether a character has the Unicode `White_Space` property, which is
/// what `char::is_whitespace` tests.
pub open spec fn is_white_space(c: char) -> bool {
    let u = c as u32;
    ||| 0x09 <= u <= 0x0d
    ||| u == 0x20
    ||| u == 0x85
    ||| u == 0xa0
    ||| u == 0x1680
    ||| 0x2000 <= u <= 0x200a
    ||| u == 0x2028
    ||| u == 0x2029
    ||| u == 0x202f
    ||| u == 0x205f
    ||| u == 0x3000
}

/// The text without its leading white space.
pub open spec fn trim_start(text: Seq<char>) -> Seq<char>
    decreases text.len(),
{
    if text.len() > 0 && is_white_space(text[0]) {
        trim_start(text.drop_first())
    } else {
        text
    }
}

/// The text without its trailing white space.
pub open spec fn trim_end(text: Seq<char>) -> Seq<char>
    decreases text.len(),
{
    if text.len() > 0 && is_white_space(text.last()) {
        trim_end(text.drop_last())
    } else {
        text
    }
}

/// What `str::trim` leaves of a text: the text without leading and
/// trailing white space.
pub open spec fn trimmed(text: Seq<char>) -> Seq<char> {
    trim_end(trim_start(text))
}

/// `sled::Tree::insert` on the default tree. Claims: when it returns `Ok`,
/// the key maps to the value and nothing else changed. Nothing is claimed of
/// the contents after an `Err`. The database is taken by `&mut` although
/// sled only needs `&`: the claim holds while no clone of the handle is
/// written elsewhere.
#[verifier::external_body]
pub(crate) fn db_insert(db: &mut sled::Db, key: &[u8], value: &[u8]) -> (r: Result<(), sled::Error>)
    ensures
        r is Ok ==> db_contents(*final(db)) == db_contents(*old(db)).insert(key@, value@),
{
    db.insert(key, value).map(|_previous| ())
}

/// `sled::Tree::remove` on the default tree. Claims: when it returns `Ok`,
/// the key is gone and nothing else changed. After an `Err` the key is gone
/// or still there, and nothing else changed: the only change a removal makes
/// is the one deletion it publishes for its key.
#[verifier::external_body]
pub(crate) fn db_remove(db: &mut sled::Db, key: &[u8]) -> (r: Result<(), sled::Error>)
    ensures
        r is Ok ==> db_contents(*final(db)) == db_contents(*old(db)).remove(key@),
        r is Err ==> db_contents(*final(db)) == db_contents(*old(db)).remove(key@)
            || db_contents(*final(db)) == db_contents(*old(db)),
{
    db.remove(key).map(|_previous| ())
}

/// `sled::Tree::contains_key`. Claims: an `Ok` answer says whether the key is
/// present.
#[verifier::external_body]
pub(crate) fn db_contains_key(db: &sled::Db, key: &[u8]) -> (r: Result<bool, sled::Error>)
    ensures
        r matches Ok(b) ==> b == db_contents(*db).contains_key(key@),
{
    db.contains_key(key)
}

/// `sled::Tree::get`, with the value copied into a `Vec`. Claims: an `Ok`
/// answer holds the stored value, or `None` where the key is absent.
#[verifier::external_body]
pub(crate) fn db_get(db: &sled::Db, key: &[u8]) -> (r: Result<Option<Vec<u8>>, sled::Error>)
    ensures
        r matches Ok(found) ==> match found {
            Some(v) => db_contents(*db).contains_key(key@) && db_contents(*db)[key@] == v@,
            None => !db_contents(*db).contains_key(key@),
        },
{
    db.get(key).map(|found| found.map(|v| v.to_vec()))
}

/// The keys of `sled::Tree::iter`, copied into `Vec`s. Claims: an `Ok`
/// answer lists every key once.
#[verifier::external_body]
pub(crate) fn db_keys(db: &sled::Db) -> (r: Result<Vec<Vec<u8>>, sled::Error>)
    ensures
        r matches Ok(keys) ==> {
            &&& keys.deep_view().no_duplicates()
            &&& keys.deep_view().to_set() == db_contents(*db).dom()
        },
{
    db.iter().keys().map(|k| k.map(|k| k.to_vec())).collect()
}

/// The `Display` text of a `sled::Error`. Nothing is claimed of it.
#[verifier::external_body]
pub(crate) fn sled_error_text(e: &sled::Error) -> String {
    format!("{}", e)
}

/// `serde_json::to_string` on a list of strings. Claims: it succeeds (it
/// writes into a `Vec` and strings always serialise), the text is the JSON of
/// the list, and `serde_json::from_str` reads the same list back.
#[verifier::external_body]
pub(crate) fn json_encode_strings(items: &Vec<String>) -> (r: Result<String, serde_json::Error>)
    ensures
        r is Ok,
        r matches Ok(text) ==> {
            &&& text@ == json_of_strings(items.deep_view())
            &&& strings_of_json(text@) == Some(items.deep_view())
        },
{
    serde_json::to_string(items)
}

/// `serde_json::from_str` into a list of strings. Claims: it succeeds exactly
/// where `strings_of_json` is `Some`, and gives that list; an empty text is
/// no JSON and fails.
#[verifier::external_body]
pub(crate) fn json_decode_strings(text: &str) -> (r: Result<Vec<String>, serde_json::Error>)
    ensures
        r is Ok <==> strings_of_json(text@) is Some,
        text@.len() == 0 ==> r is Err,
        r matches Ok(items) ==> strings_of_json(text@) == Some(items.deep_view()),
{
    serde_json::from_str(text)
}

/// The `Display` text of a `serde_json::Error`. Nothing is claimed of it.
#[verifier::external_body]
pub(crate) fn json_error_text(e: &serde_json::Error) -> String {
    format!("{}", e)
}

/// `String::from_utf8`. Claims: it succeeds exactly on valid UTF-8 and then
/// holds the decoded characters.
#[verifier::external_body]
pub(crate) fn string_from_utf8(bytes: Vec<u8>) -> (r: Result<String, std::string::FromUtf8Error>)
    ensures
        r is Ok <==> valid_utf8(bytes@),
        r matches Ok(s) ==> s@ == decode_utf8(bytes@),
{
    String::from_utf8(bytes)
}

/// The `Display` text of a `FromUtf8Error`. Nothing is claimed of it.
#[verifier::external_body]
pub(crate) fn utf8_error_text(e: &std::string::FromUtf8Error) -> String {
    format!("{}", e)
}

/// `str::trim`. Claims: the result is the text without the leading and
/// trailing characters that have the Unicode `White_Space` property.
#[verifier::external_body]
pub(crate) fn str_trim(text: &str) -> (r: &str)
    ensures
        r@ == trimmed(text@),
{
    text.trim()
}

/// `<str as PartialEq>::eq`. Claims: equal exactly when the characters are.
#[verifier::external_body]
pub(crate) fn str_eq(a: &str, b: &str) -> (r: bool)
    ensures
        r == (a@ == b@),
{
    a == b
}

} // verus!
