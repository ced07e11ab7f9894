//! Literal substring search: what it means for one sequence to stand in
//! another, the search on bytes, and the proof that on UTF-8 text a search
//! on the bytes is a search on the characters.

use vstd::prelude::*;
use vstd::string::*;
use vstd::utf8::*;

verus! {

/// `needle` stands in `hay` at offset `at`.
pub open spec fn occurs_at<T>(hay: Seq<T>, needle: Seq<T>, at: int) -> bool {
    &&& 0 <= at
    &&& at + needle.len() <= hay.len()
    &&& hay.subrange(at, at + needle.len()) == needle
}

/// `needle` stands somewhere in `hay`.
pub open spec fn occurs<T>(hay: Seq<T>, needle: Seq<T>) -> bool {
    exists|at: int| occurs_at(hay, needle, at)
}

/// The texts that a list of strings holds, in their order.
pub open spec fn texts(items: Seq<String>) -> Seq<Seq<char>> {
    items.map_values(|item: String| item@)
}

/// The empty sequence stands in every sequence.
pub proof fn lemma_empty_occurs<T>(hay: Seq<T>)
    ensures
        occurs(hay, Seq::<T>::empty()),
{
    assert(hay.subrange(0, 0) =~= Seq::<T>::empty());
    assert(occurs_at(hay, Seq::<T>::empty(), 0));
}

/// In the empty sequence stands the empty sequence and nothing else.
pub proof fn lemma_occurs_in_empty<T>(needle: Seq<T>)
    ensures
        occurs(Seq::<T>::empty(), needle) <==> needle.len() == 0,
{
    if needle.len() == 0 {
        assert(needle =~= Seq::<T>::empty());
        lemma_empty_occurs(Seq::<T>::empty());
    }
}

/// A sequence stands in itself.
pub proof fn lemma_occurs_in_itself<T>(hay: Seq<T>)
    ensures
        occurs(hay, hay),
{
    assert(hay.subrange(0, hay.len() as int) =~= hay);
    assert(occurs_at(hay, hay, 0));
}

/// What stands in a sequence stands in every sequence that it is a part of.
pub proof fn lemma_occurs_in_whole<T>(before: Seq<T>, hay: Seq<T>, after: Seq<T>, needle: Seq<T>)
    requires
        occurs(hay, needle),
    ensures
        occurs(before + hay + after, needle),
{
    let at = choose|at: int| occurs_at(hay, needle, at);
    let whole = before + hay + after;
    assert(whole.subrange(before.len() + at, before.len() + at + needle.len()) =~= hay.subrange(
        at,
        at + needle.len(),
    ));
    assert(occurs_at(whole, needle, before.len() + at));
}

/// One more string in a list is one more text at its end.
pub proof fn lemma_texts_push(items: Seq<String>, item: String)
    ensures
        texts(items.push(item)) == texts(items).push(item@),
{
    assert(texts(items.push(item)) =~= texts(items).push(item@));
}

/// The bytes of two texts put together are the bytes of the first, then
/// those of the second.
pub proof fn lemma_encode_add(first: Seq<char>, second: Seq<char>)
    ensures
        encode_utf8(first + second) == encode_utf8(first) + encode_utf8(second),
    decreases first.len(),
{
    if first.len() == 0 {
        assert(first + second =~= second);
        assert(encode_utf8(first) + encode_utf8(second) =~= encode_utf8(second));
    } else {
        lemma_encode_add(first.drop_first(), second);
        assert((first + second).drop_first() =~= first.drop_first() + second);
        assert(encode_utf8(first + second) =~= encode_utf8(first) + encode_utf8(second));
    }
}

/// Where well-formed bytes begin with a run of bytes that is well-formed by
/// itself, a character ends where the run ends.
proof fn lemma_prefix_ends_on_boundary(whole: Seq<u8>, part: Seq<u8>)
    requires
        valid_utf8(whole),
        valid_utf8(part),
        part.len() <= whole.len(),
        whole.subrange(0, part.len() as int) == part,
    ensures
        is_char_boundary(whole, part.len() as int),
    decreases part.len(),
{
    if part.len() > 0 {
        let width = length_of_first_scalar(part);
        assert(whole[0] == whole.subrange(0, part.len() as int)[0]);
        assert(length_of_first_scalar(whole) == width);
        assert(pop_first_scalar(whole).subrange(0, part.len() - width) =~= pop_first_scalar(part));
        lemma_prefix_ends_on_boundary(pop_first_scalar(whole), pop_first_scalar(part));
    }
}

/// A text that stands in another as characters stands in it as bytes of
/// UTF-8.
pub proof fn lemma_text_occurs_as_bytes(hay: Seq<char>, needle: Seq<char>)
    requires
        occurs(hay, needle),
    ensures
        occurs(encode_utf8(hay), encode_utf8(needle)),
{
    let at = choose|at: int| occurs_at(hay, needle, at);
    let before = hay.subrange(0, at);
    let after = hay.subrange(at + needle.len(), hay.len() as int);
    assert(hay =~= before + hay.subrange(at, at + needle.len()) + after);
    lemma_encode_add(before + needle, after);
    lemma_encode_add(before, needle);
    lemma_occurs_in_itself(encode_utf8(needle));
    lemma_occurs_in_whole(
        encode_utf8(before),
        encode_utf8(needle),
        encode_utf8(after),
        encode_utf8(needle),
    );
}

/// A text that stands in another as bytes of UTF-8 stands in it as
/// characters: the bytes of a text begin no character in its middle.
pub proof fn lemma_bytes_occur_as_text(hay: Seq<char>, needle: Seq<char>)
    requires
        occurs(encode_utf8(hay), encode_utf8(needle)),
    ensures
        occurs(hay, needle),
{
    let bytes = encode_utf8(hay);
    let sought = encode_utf8(needle);
    if needle.len() == 0 {
        assert(needle =~= Seq::<char>::empty());
        lemma_empty_occurs(hay);
    } else {
        let at = choose|at: int| occurs_at(bytes, sought, at);
        encode_utf8_valid_utf8(hay);
        encode_utf8_valid_utf8(needle);
        encode_utf8_decode_utf8(hay);
        encode_utf8_decode_utf8(needle);
        encode_utf8_first_scalar(needle);
        assert(is_char_boundary(sought, 0));
        is_char_boundary_iff_not_is_continuation_byte(sought, 0);
        assert(bytes[at] == bytes.subrange(at, at + sought.len())[0]);
        is_char_boundary_iff_not_is_continuation_byte(bytes, at);
        valid_utf8_split(bytes, at);
        decode_utf8_split(bytes, at);
        let head = bytes.subrange(0, at);
        let tail = bytes.subrange(at, bytes.len() as int);
        assert(tail.subrange(0, sought.len() as int) =~= sought);
        lemma_prefix_ends_on_boundary(tail, sought);
        decode_utf8_split(tail, sought.len() as int);
        let rest = tail.subrange(sought.len() as int, tail.len() as int);
        assert(hay =~= decode_utf8(head) + needle + decode_utf8(rest));
        let start = decode_utf8(head).len() as int;
        assert(hay.subrange(start, start + needle.len()) =~= needle);
        assert(occurs_at(hay, needle, start));
    }
}

/// A text stands in another as bytes of UTF-8 if and only if it stands in it
/// as characters.
pub proof fn lemma_occurs_as_text(hay: Seq<char>, needle: Seq<char>)
    ensures
        occurs(encode_utf8(hay), encode_utf8(needle)) <==> occurs(hay, needle),
{
    if occurs(hay, needle) {
        lemma_text_occurs_as_bytes(hay, needle);
    }
    if occurs(encode_utf8(hay), encode_utf8(needle)) {
        lemma_bytes_occur_as_text(hay, needle);
    }
}

/// Whether `needle` stands in `hay` at offset `at`.
pub fn matches_at(hay: &[u8], needle: &[u8], at: usize) -> (found: bool)
    ensures
        found == occurs_at(hay@, needle@, at as int),
{
    if at > hay.len() || needle.len() > hay.len() - at {
        return false;
    }
    let mut k: usize = 0;
    while k < needle.len()
        invariant
            k <= needle.len(),
            at + needle.len() <= hay.len(),
            forall|j: int| 0 <= j < k ==> hay@[at + j] == needle@[j],
        decreases needle.len() - k,
    {
        if hay[at + k] != needle[k] {
            assert(hay@.subrange(at as int, at + needle@.len())[k as int] != needle@[k as int]);
            return false;
        }
        k += 1;
    }
    assert(hay@.subrange(at as int, at + needle@.len()) =~= needle@);
    true
}

/// The first offset at which `needle` stands in `hay`, if it stands in it.
pub fn find(hay: &[u8], needle: &[u8]) -> (first: Option<usize>)
    ensures
        first is Some <==> occurs(hay@, needle@),
        first matches Some(at) ==> occurs_at(hay@, needle@, at as int) && forall|k: int|
            0 <= k < at ==> !occurs_at(hay@, needle@, k),
{
    if needle.len() > hay.len() {
        return None;
    }
    let last: usize = hay.len() - needle.len();
    let mut at: usize = 0;
    loop
        invariant
            last == hay.len() - needle.len(),
            at <= last,
            forall|k: int| 0 <= k < at ==> !occurs_at(hay@, needle@, k),
        decreases last - at,
    {
        if matches_at(hay, needle, at) {
            return Some(at);
        }
        if at == last {
            return None;
        }
        at += 1;
    }
}

/// Whether the text `hay` contains the text `needle`. The two are compared
/// as they are: no case is folded and no form is normalised. The empty text
/// is contained in every text.
pub fn contains(hay: &str, needle: &str) -> (found: bool)
    ensures
        found == occurs(hay@, needle@),
{
    proof {
        lemma_occurs_as_text(hay@, needle@);
    }
    find(hay.as_bytes(), needle.as_bytes()).is_some()
}

} // verus!
