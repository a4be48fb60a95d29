//! The local identity of a peer, read from its stored settings.
use vstd::prelude::*;
use vstd::utf8::{decode_utf8, valid_utf8};

verus! {

/// One stored setting: a key and its raw value.
pub struct Settings {
    pub key: String,
    pub value: Vec<u8>,
}

/// Position of the first setting stored under `key`, if any.
pub open spec fn first_with_key(s: Seq<Settings>, key: Seq<char>) -> Option<int> {
    if exists|i: int| 0 <= i < s.len() && s[i].key@ == key {
        Some(
            choose|i: int|
                0 <= i < s.len() && s[i].key@ == key && forall|j: int|
                    0 <= j < i ==> s[j].key@ != key,
        )
    } else {
        None
    }
}

proof fn lemma_first_with_key(s: Seq<Settings>, key: Seq<char>, i: int)
    requires
        0 <= i < s.len(),
        s[i].key@ == key,
        forall|j: int| 0 <= j < i ==> s[j].key@ != key,
    ensures
        first_with_key(s, key) == Some(i),
{
    let c = choose|c: int|
        0 <= c < s.len() && s[c].key@ == key && forall|j: int| 0 <= j < c ==> s[j].key@ != key;
    assert(0 <= c < s.len() && s[c].key@ == key && forall|j: int|
        0 <= j < c ==> s[j].key@ != key);
    if c < i {
        assert(s[c].key@ != key);
    }
    if i < c {
        assert(s[i].key@ != key);
    }
}

/// The identity stored as UTF-8 text under `key`: the value of the first
/// setting with that key. `None` when no setting has the key or its value is
/// not UTF-8; either way a session cannot start.
pub fn identity_from_settings(settings: &Vec<Settings>, key: &String) -> (r: Option<String>)
    ensures
        match first_with_key(settings@, key@) {
            Some(i) => if valid_utf8(settings@[i].value@) {
                r matches Some(id) && id@ == decode_utf8(settings@[i].value@)
            } else {
                r is None
            },
            None => r is None,
        },
{
    let mut i: usize = 0;
    while i < settings.len()
        invariant
            i <= settings@.len(),
            forall|j: int| 0 <= j < i ==> settings@[j].key@ != key@,
        decreases settings@.len() - i,
    {
        if settings[i].key == *key {
            proof {
                lemma_first_with_key(settings@, key@, i as int);
            }
            return crate::envelope::text_of(settings[i].value.as_slice());
        }
        i += 1;
    }
    None
}

} // verus!
