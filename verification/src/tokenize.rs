//! Whitespace tokenization, shared by the corpus index builder and the
//! per-document feature extractor. Both passes must split text identically,
//! or the keyword and importance tables would drift apart.

use vstd::prelude::*;

use crate::text::chars_of;
use crate::text::string_from_chars;

verus! {

/// The Unicode `White_Space` property, the boundary that both indexing
/// passes split on.
pub open spec fn spec_is_whitespace(c: char) -> bool {
    let u = c as u32;
    (9 <= u && u <= 13) || u == 32 || u == 0x85 || u == 0xa0 || u == 0x1680 || (0x2000 <= u && u
        <= 0x200a) || u == 0x2028 || u == 0x2029 || u == 0x202f || u == 0x205f || u == 0x3000
}

/// Whether a character is whitespace in the sense of `spec_is_whitespace`.
pub fn is_whitespace_char(c: char) -> (r: bool)
    ensures
        r == spec_is_whitespace(c),
{
    let u = c as u32;
    (9 <= u && u <= 13) || u == 32 || u == 0x85 || u == 0xa0 || u == 0x1680 || (0x2000 <= u && u
        <= 0x200a) || u == 0x2028 || u == 0x2029 || u == 0x202f || u == 0x205f || u == 0x3000
}

/// Tokenization of the remaining input `s`, with `cur` the partial token
/// accumulated just before it: maximal non-whitespace runs, empty tokens
/// discarded.
pub open spec fn spec_tokenize_acc(s: Seq<char>, cur: Seq<char>) -> Seq<Seq<char>>
    decreases s.len(),
{
    if s.len() == 0 {
        if cur.len() == 0 {
            Seq::empty()
        } else {
            seq![cur]
        }
    } else if spec_is_whitespace(s[0]) {
        if cur.len() == 0 {
            spec_tokenize_acc(s.drop_first(), Seq::empty())
        } else {
            seq![cur] + spec_tokenize_acc(s.drop_first(), Seq::empty())
        }
    } else {
        spec_tokenize_acc(s.drop_first(), cur.push(s[0]))
    }
}

/// The tokens of a text: its maximal non-whitespace runs, in order.
pub open spec fn spec_tokenize(s: Seq<char>) -> Seq<Seq<char>> {
    spec_tokenize_acc(s, Seq::empty())
}

/// Tokens carry no whitespace and are never empty, whatever partial token
/// the scan holds.
proof fn lemma_tokenize_acc_tokens_solid(s: Seq<char>, cur: Seq<char>)
    requires
        forall|j: int| 0 <= j < cur.len() ==> !spec_is_whitespace(cur[j]),
    ensures
        forall|i: int|
            0 <= i < spec_tokenize_acc(s, cur).len() ==> (#[trigger] spec_tokenize_acc(s, cur)[i]).len()
                > 0,
        forall|i: int, j: int|
            #![trigger spec_tokenize_acc(s, cur)[i][j]]
            0 <= i < spec_tokenize_acc(s, cur).len() && 0 <= j < spec_tokenize_acc(s, cur)[i].len()
                ==> !spec_is_whitespace(spec_tokenize_acc(s, cur)[i][j]),
    decreases s.len(),
{
    let whole = spec_tokenize_acc(s, cur);
    if s.len() == 0 {
        if cur.len() > 0 {
            assert(whole == seq![cur]);
            assert(whole[0] == cur);
        }
    } else if spec_is_whitespace(s[0]) {
        lemma_tokenize_acc_tokens_solid(s.drop_first(), Seq::empty());
        let rest = spec_tokenize_acc(s.drop_first(), Seq::empty());
        if cur.len() == 0 {
            assert(whole == rest);
        } else {
            assert(whole == seq![cur] + rest);
            assert forall|i: int| 0 <= i < whole.len() implies (#[trigger] whole[i]).len() > 0 by {
                if i == 0 {
                    assert(whole[0] == cur);
                } else {
                    assert(whole[i] == rest[i - 1]);
                }
            }
            assert forall|i: int, j: int|
                #![trigger whole[i][j]]
                0 <= i < whole.len() && 0 <= j < whole[i].len() implies !spec_is_whitespace(
                whole[i][j],
            ) by {
                if i == 0 {
                    assert(whole[0] == cur);
                } else {
                    assert(whole[i] == rest[i - 1]);
                }
            }
        }
    } else {
        lemma_tokenize_acc_tokens_solid(s.drop_first(), cur.push(s[0]));
        assert(whole == spec_tokenize_acc(s.drop_first(), cur.push(s[0])));
    }
}

/// Every token of a text is a nonempty run holding no whitespace: no empty
/// token is ever counted, and no token straddles a split point.
pub proof fn lemma_tokens_solid(s: Seq<char>)
    ensures
        forall|i: int|
            0 <= i < spec_tokenize(s).len() ==> (#[trigger] spec_tokenize(s)[i]).len() > 0,
        forall|i: int, j: int|
            #![trigger spec_tokenize(s)[i][j]]
            0 <= i < spec_tokenize(s).len() && 0 <= j < spec_tokenize(s)[i].len()
                ==> !spec_is_whitespace(spec_tokenize(s)[i][j]),
{
    lemma_tokenize_acc_tokens_solid(s, Seq::empty());
}

/// Split a text on whitespace, discarding empty tokens.
pub fn tokenize(text: &str) -> (tokens: Vec<String>)
    ensures
        tokens.deep_view() == spec_tokenize(text@),
{
    let cs = chars_of(text);
    let mut tokens: Vec<String> = Vec::new();
    let mut cur: Vec<char> = Vec::new();
    let n = cs.len();
    let mut i: usize = 0;
    proof {
        assert(cs@.skip(0) =~= cs@);
        assert(tokens.deep_view() =~= Seq::<Seq<char>>::empty());
        assert(Seq::<Seq<char>>::empty() + spec_tokenize_acc(cs@, cur@) =~= spec_tokenize_acc(
            cs@,
            cur@,
        ));
        assert(cur@ =~= Seq::<char>::empty());
    }
    while i < n
        invariant
            i <= n,
            cs@ == text@,
            n == cs@.len(),
            tokens.deep_view() + spec_tokenize_acc(cs@.skip(i as int), cur@) == spec_tokenize(
                text@,
            ),
        decreases n - i,
    {
        proof {
            assert(cs@.skip(i as int).drop_first() =~= cs@.skip(i + 1));
            assert(cs@.skip(i as int)[0] == cs@[i as int]);
        }
        let ghost prev_tokens = tokens.deep_view();
        let ghost prev_cur = cur@;
        let c = cs[i];
        if is_whitespace_char(c) {
            if cur.len() == 0 {
                proof {
                    assert(prev_cur =~= Seq::<char>::empty());
                    assert(spec_tokenize_acc(cs@.skip(i as int), prev_cur) == spec_tokenize_acc(
                        cs@.skip(i + 1),
                        Seq::empty(),
                    ));
                }
            }
            if cur.len() > 0 {
                let word = string_from_chars(&cur);
                tokens.push(word);
                cur = Vec::new();
                proof {
                    assert(cur@ =~= Seq::<char>::empty());
                    assert(spec_tokenize_acc(cs@.skip(i as int), prev_cur) == seq![prev_cur]
                        + spec_tokenize_acc(cs@.skip(i + 1), Seq::empty()));
                    assert(tokens.deep_view() =~= prev_tokens.push(word@));
                    assert(prev_tokens.push(word@) + spec_tokenize_acc(
                        cs@.skip(i + 1),
                        Seq::empty(),
                    ) =~= prev_tokens + (seq![word@] + spec_tokenize_acc(
                        cs@.skip(i + 1),
                        Seq::empty(),
                    )));
                }
            }
        } else {
            cur.push(c);
        }
        i += 1;
    }
    proof {
        assert(cs@.skip(n as int) =~= Seq::<char>::empty());
    }
    if cur.len() > 0 {
        let word = string_from_chars(&cur);
        let ghost prev_tokens = tokens.deep_view();
        tokens.push(word);
        proof {
            assert(tokens.deep_view() =~= prev_tokens.push(word@));
            assert(prev_tokens.push(word@) =~= prev_tokens + seq![word@]);
        }
    }
    tokens
}

} // verus!
