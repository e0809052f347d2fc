//! Text transforms over whole strings: the pig-latin rewriting of a text
//! word by word, and the last character of a text's first line.

use crate::grep::{first_newline, spec_lines, split_first_line, strip_trailing_cr};
use vstd::prelude::*;

verus! {

/// A character with the Unicode white-space property, the separator the
/// word splitting goes by.
pub open spec fn is_space(c: char) -> bool {
    let u = c as u32;
    ||| u == 0x9
    ||| u == 0xA
    ||| u == 0xB
    ||| u == 0xC
    ||| u == 0xD
    ||| u == 0x20
    ||| u == 0x85
    ||| u == 0xA0
    ||| u == 0x1680
    ||| (0x2000 <= u && u <= 0x200A)
    ||| u == 0x2028
    ||| u == 0x2029
    ||| u == 0x202F
    ||| u == 0x205F
    ||| u == 0x3000
}

/// An ASCII letter.
pub open spec fn is_ascii_alpha(c: char) -> bool {
    let u = c as u32;
    (0x41 <= u && u <= 0x5A) || (0x61 <= u && u <= 0x7A)
}

/// A lowercase ASCII vowel.
pub open spec fn is_ascii_vowel(c: char) -> bool {
    c == 'a' || c == 'e' || c == 'i' || c == 'o' || c == 'u'
}

/// Length of the run of non-space characters at the front of `s`.
pub open spec fn first_word_len(s: Seq<char>) -> nat
    decreases s.len(),
{
    if s.len() == 0 {
        0
    } else if is_space(s[0]) {
        0
    } else {
        1 + first_word_len(s.subrange(1, s.len() as int))
    }
}

/// One word turned into pig latin: a word opening with a lowercase vowel
/// gains `-hay`; one opening with another ASCII letter loses that letter to
/// the end behind a dash, followed by `ay`; any other word stays as it is.
pub open spec fn pig_word(w: Seq<char>) -> Seq<char> {
    if w.len() == 0 {
        w
    } else if !is_ascii_alpha(w[0]) {
        w
    } else if is_ascii_vowel(w[0]) {
        w + seq!['-', 'h', 'a', 'y']
    } else {
        w.subrange(1, w.len() as int) + seq!['-', w[0], 'a', 'y']
    }
}

/// `first_word_len` is at most the length, everything before it is no
/// space, and the character there (if any) is one.
pub proof fn lemma_first_word_len(s: Seq<char>)
    ensures
        first_word_len(s) <= s.len(),
        forall|k: int| 0 <= k < first_word_len(s) ==> !is_space(s[k]),
        first_word_len(s) < s.len() ==> is_space(s[first_word_len(s) as int]),
    decreases s.len(),
{
    if s.len() == 0 || is_space(s[0]) {
    } else {
        let tail = s.subrange(1, s.len() as int);
        lemma_first_word_len(tail);
        assert forall|k: int| 0 <= k < first_word_len(s) implies !is_space(s[k]) by {
            if k > 0 {
                assert(tail[k - 1] == s[k]);
            }
        }
        if first_word_len(s) < s.len() {
            assert(tail[first_word_len(tail) as int] == s[first_word_len(s) as int]);
        }
    }
}

/// Any position with the three properties above is `first_word_len`.
pub proof fn lemma_first_word_len_unique(s: Seq<char>, j: int)
    requires
        0 <= j <= s.len(),
        forall|k: int| 0 <= k < j ==> !is_space(s[k]),
        j < s.len() ==> is_space(s[j]),
    ensures
        first_word_len(s) == j,
    decreases s.len(),
{
    if s.len() == 0 {
    } else if is_space(s[0]) {
        assert(j == 0);
    } else {
        let tail = s.subrange(1, s.len() as int);
        assert(j >= 1);
        assert forall|k: int| 0 <= k < j - 1 implies !is_space(tail[k]) by {
            assert(tail[k] == s[k + 1]);
        }
        lemma_first_word_len_unique(tail, j - 1);
    }
}

#[via_fn]
proof fn spec_pig_latin_dec(s: Seq<char>)
{
    if s.len() > 0 && !is_space(s[0]) {
        lemma_first_word_len(s);
    }
}

/// The pig latin of a whole text: white space is consumed, and every word
/// is rewritten and followed by a single blank.
pub open spec fn spec_pig_latin(s: Seq<char>) -> Seq<char>
    decreases s.len(),
    via spec_pig_latin_dec
{
    if s.len() == 0 {
        Seq::empty()
    } else if is_space(s[0]) {
        spec_pig_latin(s.subrange(1, s.len() as int))
    } else {
        let w = first_word_len(s);
        pig_word(s.subrange(0, w as int)) + seq![' '] + spec_pig_latin(
            s.subrange(w as int, s.len() as int),
        )
    }
}

/// Whether `c` has the Unicode white-space property.
fn char_is_space(c: char) -> (r: bool)
    ensures
        r == is_space(c),
{
    let u = c as u32;
    u == 0x9 || u == 0xA || u == 0xB || u == 0xC || u == 0xD || u == 0x20 || u == 0x85
        || u == 0xA0 || u == 0x1680 || (0x2000 <= u && u <= 0x200A) || u == 0x2028 || u == 0x2029
        || u == 0x202F || u == 0x205F || u == 0x3000
}

/// End of the word at the front of `s`, whose first character is no space.
fn find_word_end(s: &str, n: usize) -> (w: usize)
    requires
        n == s@.len(),
        n > 0,
        !is_space(s@[0]),
    ensures
        w == first_word_len(s@),
        1 <= w <= n,
{
    let mut w: usize = 1;
    while w < n
        invariant
            1 <= w <= n,
            n == s@.len(),
            forall|k: int| 0 <= k < w ==> !is_space(s@[k]),
        decreases n - w,
    {
        if char_is_space(s.get_char(w)) {
            proof {
                lemma_first_word_len_unique(s@, w as int);
            }
            return w;
        }
        w = w + 1;
    }
    proof {
        lemma_first_word_len_unique(s@, n as int);
    }
    w
}

/// Rewrite `s` word by word into pig latin.  Words open at a non-space
/// character and close before the next space; each rewritten word is
/// followed by one blank in the result.
pub fn convert_to_pig_latin(s: &str) -> (r: String)
    ensures
        r@ == spec_pig_latin(s@),
{
    let mut result = String::new();
    let mut rest: &str = s;
    let mut n: usize = rest.unicode_len();
    proof {
        assert(result@ + spec_pig_latin(rest@) =~= spec_pig_latin(s@));
    }
    while n > 0
        invariant
            n == rest@.len(),
            result@ + spec_pig_latin(rest@) == spec_pig_latin(s@),
        decreases n,
    {
        let ghost old_result = result@;
        let ghost old_rest = rest@;
        let c0 = rest.get_char(0);
        if char_is_space(c0) {
            rest = rest.substring_char(1, n);
            n = n - 1;
            proof {
                assert(old_result + spec_pig_latin(old_rest) =~= result@ + spec_pig_latin(rest@));
            }
        } else {
            let w = find_word_end(rest, n);
            let ghost word: Seq<char> = old_rest.subrange(0, w as int);
            proof {
                assert(word.len() > 0);
                assert(word[0] == old_rest[0]);
            }
            let u0 = c0 as u32;
            let alpha = (0x41 <= u0 && u0 <= 0x5A) || (0x61 <= u0 && u0 <= 0x7A);
            let vowel = c0 == 'a' || c0 == 'e' || c0 == 'i' || c0 == 'o' || c0 == 'u';
            if !alpha {
                let piece = rest.substring_char(0, w);
                result.append(piece);
                proof {
                    assert(result@ =~= old_result + pig_word(word));
                }
            } else if vowel {
                let piece = rest.substring_char(0, w);
                result.append(piece);
                result.append("-hay");
                proof {
                    reveal_strlit("-hay");
                    assert("-hay"@ =~= seq!['-', 'h', 'a', 'y']);
                    assert(result@ =~= old_result + pig_word(word));
                }
            } else {
                let body = rest.substring_char(1, w);
                let head = rest.substring_char(0, 1);
                result.append(body);
                result.append("-");
                result.append(head);
                result.append("ay");
                proof {
                    reveal_strlit("-");
                    reveal_strlit("ay");
                    assert("-"@ =~= seq!['-']);
                    assert("ay"@ =~= seq!['a', 'y']);
                    assert(head@ =~= seq![word[0]]);
                    assert(word.subrange(1, word.len() as int) =~= old_rest.subrange(1, w as int));
                    assert(result@ =~= old_result + pig_word(word));
                }
            }
            result.append(" ");
            rest = rest.substring_char(w, n);
            n = n - w;
            proof {
                reveal_strlit(" ");
                assert(" "@ =~= seq![' ']);
                assert(result@ =~= old_result + pig_word(word) + seq![' ']);
                assert(spec_pig_latin(old_rest) == pig_word(word) + seq![' '] + spec_pig_latin(
                    rest@,
                ));
                assert(result@ + spec_pig_latin(rest@) =~= old_result + spec_pig_latin(old_rest));
            }
        }
    }
    proof {
        assert(spec_pig_latin(rest@) =~= Seq::<char>::empty());
        assert(result@ + spec_pig_latin(rest@) =~= result@);
    }
    result
}

/// The first line of `t`, as the line search counts lines.
pub open spec fn first_line(t: Seq<char>) -> Seq<char> {
    if first_newline(t) < t.len() {
        strip_trailing_cr(t.subrange(0, first_newline(t) as int))
    } else {
        t
    }
}

/// The last character of the first line of `t`: nothing when the text or
/// that line is empty.
pub open spec fn spec_last_char_of_first_line(t: Seq<char>) -> Option<char> {
    if t.len() == 0 {
        Option::None
    } else {
        let l = first_line(t);
        if l.len() == 0 {
            Option::None
        } else {
            Option::Some(l[l.len() - 1])
        }
    }
}

/// Last character of the first line of `texrt`, if both exist.
pub fn last_char_of_first_line(texrt: &str) -> (r: Option<char>)
    ensures
        r == spec_last_char_of_first_line(texrt@),
{
    let n = texrt.unicode_len();
    if n == 0 {
        return Option::None;
    }
    let (line, _tail, _tail_len) = split_first_line(texrt, n);
    proof {
        assert(spec_lines(texrt@)[0] == line@);
        assert(line@ == first_line(texrt@));
    }
    let m = line.unicode_len();
    if m == 0 {
        Option::None
    } else {
        Option::Some(line.get_char(m - 1))
    }
}

/// The same answer as [`last_char_of_first_line`], by the shorter route.
pub fn last_char_of_first_line_short(texrt: &str) -> (r: Option<char>)
    ensures
        r == spec_last_char_of_first_line(texrt@),
{
    last_char_of_first_line(texrt)
}

} // verus!
