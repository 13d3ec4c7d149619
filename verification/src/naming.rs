//! Names for running children: a random adjective and noun, a counter that
//! never repeats within one supervisor, and the child's process id.
use crate::text::{decimal, decimal_string};
use rand::Rng;
use vstd::prelude::*;

verus! {

/// The counter after one more name was drawn; it wraps at the end of its range.
pub open spec fn next_count(counter: usize) -> usize {
    if counter == usize::MAX {
        0
    } else {
        (counter + 1) as usize
    }
}

/// Draws the next number of the supervisor's name counter.
pub fn get_counter(counter: &mut usize) -> (drawn: usize)
    ensures
        drawn == *old(counter),
        *final(counter) == next_count(*old(counter)),
{
    let drawn = *counter;
    *counter = if drawn == usize::MAX {
        0
    } else {
        drawn + 1
    };
    drawn
}

/// A uniformly drawn index below `n`. Trusted: `rand::Rng::gen_range` on the
/// thread-local generator, which panics on an empty range and returns a
/// value inside the range otherwise. Nothing else is claimed of the draw.
#[verifier::external_body]
fn random_index(n: usize) -> (i: usize)
    requires
        n > 0,
    ensures
        i < n,
{
    rand::thread_rng().gen_range(0..n)
}

/// The word made of one adjective and one noun.
pub open spec fn word_of(adjective: Seq<char>, noun: Seq<char>) -> Seq<char> {
    adjective + "-"@ + noun
}

/// Whether `word` joins an adjective and a noun of the two lists.
pub open spec fn dictionary_word(
    adjectives: Seq<Seq<char>>,
    nouns: Seq<Seq<char>>,
    word: Seq<char>,
) -> bool {
    exists|i: int, j: int|
        0 <= i < adjectives.len() && 0 <= j < nouns.len() && word == word_of(
            #[trigger] adjectives[i],
            #[trigger] nouns[j],
        )
}

/// Joins the adjective at `i` and the noun at `j`.
pub fn pick_word(adjectives: &Vec<String>, nouns: &Vec<String>, i: usize, j: usize) -> (word:
    String)
    requires
        i < adjectives.len(),
        j < nouns.len(),
    ensures
        word@ == word_of(adjectives[i as int]@, nouns[j as int]@),
{
    adjectives[i].clone().concat("-").concat(nouns[j].as_str())
}

/// A random adjective and a random noun, joined by a hyphen.
pub fn make_random_word(adjectives: &Vec<String>, nouns: &Vec<String>) -> (word: String)
    requires
        adjectives.len() > 0,
        nouns.len() > 0,
    ensures
        dictionary_word(adjectives.deep_view(), nouns.deep_view(), word@),
{
    let i = random_index(adjectives.len());
    let j = random_index(nouns.len());
    let word = pick_word(adjectives, nouns, i, j);
    assert(adjectives.deep_view()[i as int] == adjectives[i as int]@);
    assert(nouns.deep_view()[j as int] == nouns[j as int]@);
    word
}

/// The process id that stands in a name; `u32::MAX` when the child has none.
pub open spec fn name_pid(pid: Option<u32>) -> u32 {
    match pid {
        Some(p) => p,
        None => u32::MAX,
    }
}

/// The name of a running child: `<word>-<counter>-<pid>`.
pub open spec fn unique_name_of(word: Seq<char>, counter: usize, pid: Option<u32>) -> Seq<char> {
    word + "-"@ + decimal(counter as nat) + "-"@ + decimal(name_pid(pid) as nat)
}

/// A text that ends in a hyphen and a run without hyphens splits in one
/// way only.
pub proof fn lemma_split_at_last_hyphen(
    head: Seq<char>,
    tail: Seq<char>,
    other_head: Seq<char>,
    other_tail: Seq<char>,
)
    requires
        forall|i: int| 0 <= i < tail.len() ==> #[trigger] tail[i] != '-',
        forall|i: int| 0 <= i < other_tail.len() ==> #[trigger] other_tail[i] != '-',
        head + "-"@ + tail == other_head + "-"@ + other_tail,
    ensures
        head == other_head,
        tail == other_tail,
{
    reveal_strlit("-");
    let text = head + "-"@ + tail;
    let other = other_head + "-"@ + other_tail;
    assert(text.len() == head.len() + 1 + tail.len());
    assert(other.len() == other_head.len() + 1 + other_tail.len());
    assert(text[head.len() as int] == '-');
    assert(other[other_head.len() as int] == '-');
    if head.len() < other_head.len() {
        let at = other_head.len() as int;
        assert(text[at] == tail[at - head.len() - 1]);
    }
    if other_head.len() < head.len() {
        let at = head.len() as int;
        assert(other[at] == other_tail[at - other_head.len() - 1]);
    }
    assert(head =~= other_head) by {
        assert forall|i: int| 0 <= i < head.len() implies head[i] == other_head[i] by {
            assert(text[i] == head[i]);
            assert(other[i] == other_head[i]);
        }
    }
    assert(tail =~= other_tail) by {
        assert forall|i: int| 0 <= i < tail.len() implies tail[i] == other_tail[i] by {
            assert(text[head.len() + 1 + i] == tail[i]);
            assert(other[other_head.len() + 1 + i] == other_tail[i]);
        }
    }
}

/// Names built from different numbers of the counter differ, whatever the
/// words and the process ids: while the counter has not wrapped, no name
/// is given twice.
pub proof fn law_names_differ(
    word: Seq<char>,
    counter: usize,
    pid: Option<u32>,
    other_word: Seq<char>,
    other_counter: usize,
    other_pid: Option<u32>,
)
    requires
        counter != other_counter,
    ensures
        unique_name_of(word, counter, pid) != unique_name_of(other_word, other_counter, other_pid),
{
    if unique_name_of(word, counter, pid) == unique_name_of(other_word, other_counter, other_pid) {
        crate::text::lemma_decimal_digits(counter as nat);
        crate::text::lemma_decimal_digits(other_counter as nat);
        crate::text::lemma_decimal_digits(name_pid(pid) as nat);
        crate::text::lemma_decimal_digits(name_pid(other_pid) as nat);
        lemma_split_at_last_hyphen(
            word + "-"@ + decimal(counter as nat),
            decimal(name_pid(pid) as nat),
            other_word + "-"@ + decimal(other_counter as nat),
            decimal(name_pid(other_pid) as nat),
        );
        lemma_split_at_last_hyphen(
            word,
            decimal(counter as nat),
            other_word,
            decimal(other_counter as nat),
        );
        crate::text::lemma_decimal_injective(counter as nat, other_counter as nat);
    }
}

/// Builds the name of a running child from its word, counter and process id.
pub fn unique_name(word: &str, counter: usize, pid: Option<u32>) -> (name: String)
    ensures
        name@ == unique_name_of(word@, counter, pid),
{
    let shown: u32 = match pid {
        Some(p) => p,
        None => u32::MAX,
    };
    word.to_owned().concat("-").concat(decimal_string(counter as u64).as_str()).concat(
        "-",
    ).concat(decimal_string(shown as u64).as_str())
}

} // verus!
