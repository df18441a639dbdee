//! Classification of the error messages that audio back ends report when a
//! capture device cannot be opened.

use vstd::prelude::*;

verus! {

/// The code point of `c` with ASCII upper-case letters folded to lower case.
pub open spec fn fold_ascii(c: char) -> u32 {
    let v = c as u32;
    if 65 <= v && v <= 90 {
        (v + 32) as u32
    } else {
        v
    }
}

/// `needle` occurs in `hay` at position `i`, ignoring ASCII case.
pub open spec fn occurs_at(hay: Seq<char>, needle: Seq<char>, i: int) -> bool {
    &&& 0 <= i
    &&& i + needle.len() <= hay.len()
    &&& forall|j: int| 0 <= j < needle.len() ==> fold_ascii(#[trigger] hay[i + j]) == fold_ascii(needle[j])
}

/// `needle` occurs somewhere in `hay`, ignoring ASCII case.
pub open spec fn mentions(hay: Seq<char>, needle: Seq<char>) -> bool {
    exists|i: int| occurs_at(hay, needle, i)
}

/// Message fragments by which the back ends report that the user or the
/// operating system refused access to the microphone.
pub open spec fn spec_is_microphone_access_denied(message: Seq<char>) -> bool {
    ||| mentions(message, "access is denied"@)
    ||| mentions(message, "permission denied"@)
    ||| mentions(message, "0x80070005"@)
}

/// Message fragments by which the back ends report that there is no input
/// device to capture from.
pub open spec fn spec_is_no_input_device_error(message: Seq<char>) -> bool {
    ||| mentions(message, "no input device"@)
    ||| (mentions(message, "failed to fetch preferred config"@) && mentions(message, "coreaudio"@))
}

fn fold_ascii_exec(c: char) -> (r: u32)
    ensures
        r == fold_ascii(c),
{
    let v = c as u32;
    if 65 <= v && v <= 90 {
        v + 32
    } else {
        v
    }
}

pub(crate) fn chars_of(s: &str) -> (v: Vec<char>)
    ensures
        v@ == s@,
{
    broadcast use vstd::string::axiom_spec_iter;
    let mut v: Vec<char> = Vec::new();
    for c in it: s.chars()
        invariant
            v@ == it.seq().take(it.index() as int),
    {
        v.push(c);
    }
    v
}

fn occurs_at_exec(hay: &Vec<char>, needle: &Vec<char>, i: usize) -> (r: bool)
    requires
        i + needle@.len() <= hay@.len(),
    ensures
        r == occurs_at(hay@, needle@, i as int),
{
    let mut j: usize = 0;
    while j < needle.len()
        invariant
            i + needle@.len() <= hay@.len(),
            j <= needle@.len(),
            forall|k: int| 0 <= k < j ==> fold_ascii(#[trigger] hay@[i + k]) == fold_ascii(needle@[k]),
        decreases needle@.len() - j,
    {
        assert(i + j < hay.len());
        if fold_ascii_exec(hay[i + j]) != fold_ascii_exec(needle[j]) {
            assert(!(fold_ascii(hay@[i + j as int]) == fold_ascii(needle@[j as int])));
            return false;
        }
        j = j + 1;
    }
    true
}

fn mentions_exec(hay: &Vec<char>, needle: &Vec<char>) -> (r: bool)
    ensures
        r == mentions(hay@, needle@),
{
    if needle.len() > hay.len() {
        return false;
    }
    if needle.len() == 0 {
        assert(occurs_at(hay@, needle@, 0));
        return true;
    }
    let last: usize = hay.len() - needle.len();
    let mut i: usize = 0;
    while i <= last
        invariant
            last == hay@.len() - needle@.len(),
            last < hay.len(),
            0 < needle@.len() <= hay@.len(),
            forall|k: int| 0 <= k < i ==> !occurs_at(hay@, needle@, k),
        decreases last + 1 - i,
    {
        if occurs_at_exec(hay, needle, i) {
            return true;
        }
        i = i + 1;
    }
    assert forall|k: int| !occurs_at(hay@, needle@, k) by {
        if 0 <= k && k < i {
        }
    }
    false
}

/// Whether `message` reports that access to the microphone was refused.
pub fn is_microphone_access_denied(message: &str) -> (r: bool)
    ensures
        r == spec_is_microphone_access_denied(message@),
{
    let hay = chars_of(message);
    mentions_exec(&hay, &chars_of("access is denied"))
        || mentions_exec(&hay, &chars_of("permission denied"))
        || mentions_exec(&hay, &chars_of("0x80070005"))
}

/// Whether `message` reports that no input device is available.
pub fn is_no_input_device_error(message: &str) -> (r: bool)
    ensures
        r == spec_is_no_input_device_error(message@),
{
    let hay = chars_of(message);
    mentions_exec(&hay, &chars_of("no input device"))
        || (mentions_exec(&hay, &chars_of("failed to fetch preferred config"))
            && mentions_exec(&hay, &chars_of("coreaudio")))
}


/// `phrase` stands at position `i` of `message`, ignoring ASCII case.
pub open spec fn stands_at(message: Seq<char>, phrase: Seq<char>, i: int) -> bool {
    &&& 0 <= i
    &&& i + phrase.len() <= message.len()
    &&& message.subrange(i, i + phrase.len()).map_values(|c: char| fold_ascii(c)) == phrase.map_values(
        |c: char| fold_ascii(c),
    )
}

proof fn lemma_occurs_at_iff_stands_at(message: Seq<char>, phrase: Seq<char>, i: int)
    ensures
        occurs_at(message, phrase, i) <==> stands_at(message, phrase, i),
{
    if 0 <= i && i + phrase.len() <= message.len() {
        let l = message.subrange(i, i + phrase.len()).map_values(|c: char| fold_ascii(c));
        let r = phrase.map_values(|c: char| fold_ascii(c));
        if occurs_at(message, phrase, i) {
            assert forall|j: int| 0 <= j < phrase.len() implies l[j] == r[j] by {
                assert(message.subrange(i, i + phrase.len())[j] == message[i + j]);
            }
            assert(l =~= r);
        }
        if stands_at(message, phrase, i) {
            assert forall|j: int| 0 <= j < phrase.len() implies fold_ascii(#[trigger] message[i + j]) == fold_ascii(
                phrase[j],
            ) by {
                assert(l[j] == r[j]);
                assert(message.subrange(i, i + phrase.len())[j] == message[i + j]);
            }
        }
    }
}

proof fn lemma_mentions_iff(message: Seq<char>, phrase: Seq<char>)
    ensures
        mentions(message, phrase) <==> exists|i: int| stands_at(message, phrase, i),
{
    if mentions(message, phrase) {
        let i = choose|i: int| occurs_at(message, phrase, i);
        lemma_occurs_at_iff_stands_at(message, phrase, i);
    }
    if exists|i: int| stands_at(message, phrase, i) {
        let i = choose|i: int| stands_at(message, phrase, i);
        lemma_occurs_at_iff_stands_at(message, phrase, i);
    }
}

/// A message is classified as refused access exactly when it holds, ignoring
/// ASCII case, "access is denied", "permission denied" or the whole Windows
/// code "0x80070005"; a message with none of them (another 0x8007 code, say)
/// is not.
pub proof fn lemma_access_denied_means_one_of_the_phrases(message: Seq<char>)
    ensures
        spec_is_microphone_access_denied(message) <==> {
            ||| exists|i: int| stands_at(message, "access is denied"@, i)
            ||| exists|i: int| stands_at(message, "permission denied"@, i)
            ||| exists|i: int| stands_at(message, "0x80070005"@, i)
        },
{
    lemma_mentions_iff(message, "access is denied"@);
    lemma_mentions_iff(message, "permission denied"@);
    lemma_mentions_iff(message, "0x80070005"@);
}

/// A message is classified as a missing input device exactly when it holds,
/// ignoring ASCII case, "no input device", or both "failed to fetch
/// preferred config" and "coreaudio".
pub proof fn lemma_no_device_means_one_of_the_phrases(message: Seq<char>)
    ensures
        spec_is_no_input_device_error(message) <==> {
            ||| exists|i: int| stands_at(message, "no input device"@, i)
            ||| (exists|i: int| stands_at(message, "failed to fetch preferred config"@, i)) && (exists|i: int|
                stands_at(message, "coreaudio"@, i))
        },
{
    lemma_mentions_iff(message, "no input device"@);
    lemma_mentions_iff(message, "failed to fetch preferred config"@);
    lemma_mentions_iff(message, "coreaudio"@);
}

} // verus!
