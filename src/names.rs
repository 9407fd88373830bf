use vstd::prelude::*;
use vstd::string::*;
use vstd::utf8::{decode_utf8, pop_first_scalar, valid_utf8};

use crate::error::{Error, Result};

verus! {

/// The bytes of name that each slot offers the engine.
pub const NAME_CAPACITY: usize = 32;

/// A slot before the engine fills it: `NAME_CAPACITY` spaces and a closing zero.
pub open spec fn blank_slot() -> Seq<u8> {
    Seq::new(NAME_CAPACITY as nat, |i: int| 32u8).push(0u8)
}

/// `k` is where the name in a slot ends: at the first zero byte, at the end of
/// the slot, or after `NAME_CAPACITY` bytes, whichever comes first.
pub open spec fn name_end(s: Seq<u8>, k: int) -> bool {
    &&& 0 <= k <= NAME_CAPACITY
    &&& k <= s.len()
    &&& forall|j: int| 0 <= j < k ==> s[j] != 0
    &&& (k == s.len() || k == NAME_CAPACITY || s[k] == 0)
}

/// The length of the name in a slot.
pub open spec fn name_len(s: Seq<u8>) -> int {
    choose|k: int| name_end(s, k)
}

/// The bytes of the name in a slot.
pub open spec fn slot_name(s: Seq<u8>) -> Seq<u8> {
    s.take(name_len(s))
}

/// Each slot holds a name in UTF-8.
pub open spec fn all_names_valid(slots: Seq<Vec<u8>>) -> bool {
    forall|i: int| 0 <= i < slots.len() ==> valid_utf8(#[trigger] slot_name(slots[i]@))
}

/// `names` are the names that `slots` hold, one for each slot, in order.
pub open spec fn names_of(slots: Seq<Vec<u8>>, names: Seq<String>) -> bool {
    &&& names.len() == slots.len()
    &&& forall|i: int| 0 <= i < slots.len() ==> #[trigger] names[i]@ == decode_utf8(slot_name(slots[i]@))
}

/// A name ends at exactly one place, and `name_len` finds it.
pub proof fn lemma_name_end_unique(s: Seq<u8>, k: int)
    requires
        name_end(s, k),
    ensures
        name_len(s) == k,
        slot_name(s) == s.take(k),
{
    let m = name_len(s);
    assert(name_end(s, m));
    if m < k {
        assert(s[m] != 0);
    } else if k < m {
        assert(s[k] != 0);
    }
}

/// Slots for the engine to fill, one for each of `count` features. A negative
/// count gives none.
pub fn name_slots(count: i32) -> (r: Vec<Vec<u8>>)
    ensures
        r@.len() == if count < 0 { 0 } else { count as int },
        forall|i: int| 0 <= i < r@.len() ==> #[trigger] r@[i]@ == blank_slot(),
{
    let mut slots: Vec<Vec<u8>> = Vec::new();
    let mut i: i32 = 0;
    while i < count
        invariant
            0 <= i,
            count >= 0 ==> i <= count,
            count < 0 ==> i == 0,
            slots@.len() == i,
            forall|j: int| 0 <= j < slots@.len() ==> #[trigger] slots@[j]@ == blank_slot(),
        decreases count - i,
    {
        let mut slot: Vec<u8> = Vec::new();
        let mut b: usize = 0;
        while b < NAME_CAPACITY
            invariant
                b <= NAME_CAPACITY,
                slot@ == Seq::new(b as nat, |x: int| 32u8),
            decreases NAME_CAPACITY - b,
        {
            slot.push(32u8);
            b = b + 1;
            proof {
                assert(slot@ =~= Seq::new(b as nat, |x: int| 32u8));
            }
        }
        slot.push(0u8);
        slots.push(slot);
        i = i + 1;
    }
    slots
}

/// Relies on String::from_utf8: it accepts exactly the byte strings that are
/// valid UTF-8, and its text is what they encode.
#[verifier::external_body]
fn utf8_string(bytes: Vec<u8>) -> (r: Option<String>)
    ensures
        r is Some <==> valid_utf8(bytes@),
        r matches Some(s) ==> s@ == decode_utf8(bytes@),
{
    String::from_utf8(bytes).ok()
}

/// Where the name in a slot ends.
fn name_end_of(s: &Vec<u8>) -> (r: usize)
    ensures
        r == name_len(s@),
        name_end(s@, r as int),
{
    let mut k: usize = 0;
    while k < s.len() && k < NAME_CAPACITY && s[k] != 0
        invariant
            k <= s@.len(),
            k <= NAME_CAPACITY,
            forall|j: int| 0 <= j < k ==> s@[j] != 0,
        decreases NAME_CAPACITY - k,
    {
        k = k + 1;
    }
    proof {
        lemma_name_end_unique(s@, k as int);
    }
    k
}

/// The name that one filled slot holds. Fails where it is not UTF-8.
pub fn slot_text(s: &Vec<u8>) -> (r: Result<String>)
    ensures
        r is Ok <==> valid_utf8(slot_name(s@)),
        r matches Ok(t) ==> t@ == decode_utf8(slot_name(s@)),
        r matches Err(e) ==> e is EncodingFailure,
{
    let end = name_end_of(s);
    let mut bytes: Vec<u8> = Vec::new();
    let mut i: usize = 0;
    while i < end
        invariant
            end == name_len(s@),
            end <= s@.len(),
            i <= end,
            bytes@ == s@.take(i as int),
        decreases end - i,
    {
        bytes.push(s[i]);
        i = i + 1;
        proof {
            assert(bytes@ =~= s@.take(i as int));
        }
    }
    match utf8_string(bytes) {
        Some(t) => Ok(t),
        None => Err(Error::EncodingFailure(String::from_str("a feature name is not UTF-8"))),
    }
}

/// The names that filled slots hold, one for each slot, in order. Fails where one
/// is not UTF-8.
pub fn slot_texts(slots: &Vec<Vec<u8>>) -> (r: Result<Vec<String>>)
    ensures
        r is Ok <==> all_names_valid(slots@),
        r matches Ok(names) ==> names_of(slots@, names@),
        r matches Err(e) ==> e is EncodingFailure,
{
    let mut names: Vec<String> = Vec::new();
    let mut i: usize = 0;
    while i < slots.len()
        invariant
            i <= slots@.len(),
            names@.len() == i,
            forall|j: int| 0 <= j < i ==> valid_utf8(#[trigger] slot_name(slots@[j]@)),
            forall|j: int| 0 <= j < i ==> #[trigger] names@[j]@ == decode_utf8(slot_name(slots@[j]@)),
        decreases slots@.len() - i,
    {
        match slot_text(&slots[i]) {
            Ok(t) => names.push(t),
            Err(e) => return Err(e),
        }
        i = i + 1;
    }
    Ok(names)
}

/// Some place ends the name in every slot.
proof fn lemma_name_end_exists(s: Seq<u8>, k: int)
    requires
        0 <= k <= NAME_CAPACITY,
        k <= s.len(),
        forall|j: int| 0 <= j < k ==> s[j] != 0,
    ensures
        name_end(s, name_len(s)),
    decreases NAME_CAPACITY - k,
{
    if k == s.len() || k == NAME_CAPACITY || s[k] == 0 {
        assert(name_end(s, k));
    } else {
        lemma_name_end_exists(s, k + 1);
    }
}

/// Text decoded from UTF-8 has no more characters than it had bytes.
pub proof fn lemma_decoded_len(b: Seq<u8>)
    requires
        valid_utf8(b),
    ensures
        decode_utf8(b).len() <= b.len(),
    decreases b.len(),
{
    if b.len() > 0 {
        let rest = pop_first_scalar(b);
        assert(rest.len() < b.len());
        lemma_decoded_len(rest);
    }
}

/// A name takes at most `NAME_CAPACITY` bytes of its slot, and so at most
/// `NAME_CAPACITY` characters; a longer one is cut after `NAME_CAPACITY` bytes.
pub proof fn lemma_name_capacity(s: Seq<u8>)
    ensures
        slot_name(s).len() <= NAME_CAPACITY,
        valid_utf8(slot_name(s)) ==> decode_utf8(slot_name(s)).len() <= NAME_CAPACITY,
        s.len() >= NAME_CAPACITY && (forall|j: int| 0 <= j < NAME_CAPACITY ==> s[j] != 0)
            ==> slot_name(s) == s.take(NAME_CAPACITY as int),
{
    lemma_name_end_exists(s, 0);
    if valid_utf8(slot_name(s)) {
        lemma_decoded_len(slot_name(s));
    }
    if s.len() >= NAME_CAPACITY && (forall|j: int| 0 <= j < NAME_CAPACITY ==> s[j] != 0) {
        lemma_name_end_unique(s, NAME_CAPACITY as int);
    }
}

} // verus!
