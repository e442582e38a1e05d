//! Composition of the storage key from the caller's key and the
//! application identifier.

use vstd::prelude::*;
use vstd::string::StringExecFns;

verus! {

/// The character that separates the application identifier from the key.
pub open spec fn delimiter() -> char {
    ':'
}

/// The composite key: the application identifier, the delimiter, the key.
pub open spec fn composite_key(key: Seq<char>, app_id: Seq<char>) -> Seq<char> {
    app_id + seq![delimiter()] + key
}

/// The text holds no delimiter.
pub open spec fn delimiter_free(text: Seq<char>) -> bool {
    forall|i: int| 0 <= i < text.len() ==> text[i] != delimiter()
}

/// Builds the composite key under which a record is stored. Defined for
/// all strings; the result depends on the two arguments alone.
pub fn combine_key(key: String, app_id: String) -> (full_key: String)
    ensures
        full_key@ == composite_key(key@, app_id@),
{
    let mut full_key = app_id.clone();
    proof {
        reveal_strlit(":");
        assert(":"@ =~= seq![delimiter()]);
    }
    full_key.append(":");
    full_key.append(key.as_str());
    full_key
}

/// The composite key is as long as its two parts and the delimiter, and
/// holds the delimiter right behind the application identifier.
pub proof fn lemma_composite_key_shape(key: Seq<char>, app_id: Seq<char>)
    ensures
        composite_key(key, app_id).len() == app_id.len() + 1 + key.len(),
        composite_key(key, app_id)[app_id.len() as int] == delimiter(),
        composite_key(key, app_id).subrange(0, app_id.len() as int) == app_id,
        composite_key(key, app_id).subrange(
            app_id.len() as int + 1,
            composite_key(key, app_id).len() as int,
        ) == key,
{
    let full = composite_key(key, app_id);
    assert(full.subrange(0, app_id.len() as int) =~= app_id);
    assert(full.subrange(app_id.len() as int + 1, full.len() as int) =~= key);
}

/// The composite key is determined by its two parts: equal parts give
/// equal composite keys, call after call.
pub proof fn lemma_composite_key_deterministic(
    key_a: Seq<char>,
    app_a: Seq<char>,
    key_b: Seq<char>,
    app_b: Seq<char>,
)
    requires
        key_a == key_b,
        app_a == app_b,
    ensures
        composite_key(key_a, app_a) == composite_key(key_b, app_b),
{
}

/// Under one application identifier, different keys have different
/// composite keys, whatever characters the parts hold.
pub proof fn lemma_composite_key_separates_keys(
    key_a: Seq<char>,
    key_b: Seq<char>,
    app_id: Seq<char>,
)
    requires
        key_a != key_b,
    ensures
        composite_key(key_a, app_id) != composite_key(key_b, app_id),
{
    lemma_composite_key_shape(key_a, app_id);
    lemma_composite_key_shape(key_b, app_id);
}

/// Where the application identifiers hold no delimiter, two pairs with the
/// same composite key are the same pair: no two logical keys share a record.
pub proof fn lemma_composite_key_injective(
    key_a: Seq<char>,
    app_a: Seq<char>,
    key_b: Seq<char>,
    app_b: Seq<char>,
)
    requires
        delimiter_free(app_a),
        delimiter_free(app_b),
        composite_key(key_a, app_a) == composite_key(key_b, app_b),
    ensures
        app_a == app_b,
        key_a == key_b,
{
    let full = composite_key(key_a, app_a);
    lemma_composite_key_shape(key_a, app_a);
    lemma_composite_key_shape(key_b, app_b);
    if app_a.len() < app_b.len() {
        assert(full[app_a.len() as int] == app_b[app_a.len() as int]);
    } else if app_b.len() < app_a.len() {
        assert(full[app_b.len() as int] == app_a[app_b.len() as int]);
    }
}

} // verus!
