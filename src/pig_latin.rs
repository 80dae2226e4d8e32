use vstd::prelude::*;

verus! {

/// The lowercase consonants.
pub open spec fn is_consonant(c: char) -> bool {
    c == 'b' || c == 'c' || c == 'd' || c == 'f' || c == 'g' || c == 'h' || c == 'j'
        || c == 'k' || c == 'l' || c == 'm' || c == 'n' || c == 'p' || c == 'q' || c == 'r'
        || c == 's' || c == 't' || c == 'v' || c == 'w' || c == 'x' || c == 'y' || c == 'z'
}

/// The pig-latin form of a non-empty word.
pub open spec fn pig_latin(w: Seq<char>) -> Seq<char> {
    if is_consonant(w[0]) {
        w.drop_first() + seq!['-'] + seq![w[0]] + seq!['a', 'y']
    } else {
        w + seq!['-', 'h', 'a', 'y']
    }
}

/// The word without its first character.
pub fn word_translation(word: &str) -> (r: String)
    ensures
        word@.len() == 0 ==> r@.len() == 0,
        word@.len() > 0 ==> r@ == word@.drop_first(),
{
    let n = word.unicode_len();
    if n == 0 {
        return String::new();
    }
    let rest = word.substring_char(1, n);
    let r = String::from_str(rest);
    assert(r@ =~= word@.drop_first());
    r
}

/// Whether the word starts with a lowercase consonant, and its first
/// character.
pub fn is_first_letter_consonant(word: &str) -> (r: (bool, char))
    requires
        word@.len() > 0,
    ensures
        r.1 == word@[0],
        r.0 == is_consonant(word@[0]),
{
    let consonants: [char; 21] = [
        'b', 'c', 'd', 'f', 'g', 'h', 'j', 'k', 'l', 'm', 'n', 'p', 'q', 'r', 's', 't', 'v', 'w',
        'x', 'y', 'z',
    ];
    let first = word.get_char(0);
    let mut i: usize = 0;
    while i < 21
        invariant
            i <= 21,
            word@.len() > 0,
            first == word@[0],
            consonants@ == seq!['b', 'c', 'd', 'f', 'g', 'h', 'j', 'k', 'l', 'm', 'n', 'p', 'q', 'r', 's', 't', 'v', 'w', 'x', 'y', 'z'],
            forall|t: int| 0 <= t < i ==> consonants@[t] != first,
        decreases 21 - i,
    {
        if consonants[i] == first {
            return (true, first);
        }
        i = i + 1;
    }
    proof {
        if is_consonant(first) {
            assert(consonants@.contains(first));
            let t = choose|t: int| 0 <= t < 21 && consonants@[t] == first;
        }
    }
    (false, first)
}

/// Pig latin: a leading consonant moves to the end, followed by `ay`, after
/// a dash; a word with another first letter gets `-hay`.
pub fn convert_to_pig(word: &str) -> (r: String)
    requires
        word@.len() > 0,
    ensures
        r@ == pig_latin(word@),
{
    let first = is_first_letter_consonant(word);
    if first.0 {
        let mut r = word_translation(word);
        proof {
            reveal_strlit("-");
            reveal_strlit("ay");
        }
        r.append("-");
        crate::code::push_char(&mut r, first.1);
        r.append("ay");
        assert(r@ =~= pig_latin(word@));
        r
    } else {
        let mut r = String::from_str(word);
        proof {
            reveal_strlit("-hay");
        }
        r.append("-hay");
        assert(r@ =~= pig_latin(word@));
        r
    }
}

} // verus!
