//! The lexical validator: a read-only word list and the predicate that
//! every token of a string is a known word.
//!
//! A token is a maximal run of characters that are neither whitespace nor
//! ASCII punctuation; empty runs are discarded. A token is known when its
//! lowercase folding occurs in the word list.

use vstd::prelude::*;
use vstd::string::StringExecFns;
use vstd::string::StrSliceExecFns;
use crate::unicode::is_ascii_punct;
use crate::unicode::is_ascii_punct_char;
use crate::unicode::is_space;
use crate::unicode::is_space_char;
use crate::unicode::lower_of;
use crate::unicode::lowercase;

verus! {

/// Whether `c` separates tokens.
pub open spec fn is_sep_char(c: char) -> bool {
    is_space_char(c) || is_ascii_punct_char(c)
}

fn is_sep(c: char) -> (r: bool)
    ensures
        r == is_sep_char(c),
{
    is_space(c) || is_ascii_punct(c)
}

/// The tokens of `cur + s` where `cur` is the (possibly empty) run of
/// non-separator characters read so far.
pub open spec fn tokens_from(s: Seq<char>, cur: Seq<char>) -> Seq<Seq<char>>
    decreases s.len(),
{
    if s.len() == 0 {
        if cur.len() > 0 {
            seq![cur]
        } else {
            Seq::empty()
        }
    } else if is_sep_char(s[0]) {
        if cur.len() > 0 {
            seq![cur] + tokens_from(s.drop_first(), Seq::empty())
        } else {
            tokens_from(s.drop_first(), Seq::empty())
        }
    } else {
        tokens_from(s.drop_first(), cur.push(s[0]))
    }
}

/// The maximal non-separator runs of `s`, in order.
pub open spec fn tokens(s: Seq<char>) -> Seq<Seq<char>> {
    tokens_from(s, Seq::empty())
}

/// The views of a vector of strings.
pub open spec fn string_views(v: Seq<String>) -> Seq<Seq<char>> {
    v.map_values(|w: String| w@)
}

/// Splits `s` into its tokens.
pub fn tokenize(s: &str) -> (r: Vec<String>)
    ensures
        string_views(r@) == tokens(s@),
{
    let n = s.unicode_len();
    let mut out: Vec<String> = Vec::new();
    let mut start: usize = 0;
    let mut i: usize = 0;
    proof {
        assert(s@.skip(0) =~= s@);
        assert(s@.subrange(0, 0) =~= Seq::<char>::empty());
        assert(string_views(out@) =~= Seq::<Seq<char>>::empty());
        assert(Seq::<Seq<char>>::empty() + tokens_from(s@, Seq::empty()) =~= tokens(s@));
    }
    while i < n
        invariant
            n == s@.len(),
            start <= i <= n,
            forall|j: int| start <= j < i ==> !is_sep_char(s@[j]),
            string_views(out@) + tokens_from(s@.skip(i as int), s@.subrange(start as int, i as int))
                == tokens(s@),
        decreases n - i,
    {
        let ghost cur = s@.subrange(start as int, i as int);
        let ghost rest = s@.skip(i as int);
        proof {
            assert(rest[0] == s@[i as int]);
            assert(rest.drop_first() =~= s@.skip(i as int + 1));
        }
        let c = s.get_char(i);
        if is_sep(c) {
            if start < i {
                let tok = s.substring_char(start, i).to_owned();
                proof {
                    assert(string_views(out@.push(tok)) =~= string_views(out@).push(cur));
                    assert(string_views(out@).push(cur) =~= string_views(out@) + seq![cur]);
                    assert((string_views(out@) + seq![cur]) + tokens_from(
                        rest.drop_first(),
                        Seq::empty(),
                    ) =~= string_views(out@) + (seq![cur] + tokens_from(
                        rest.drop_first(),
                        Seq::empty(),
                    )));
                }
                out.push(tok);
            }
            start = i + 1;
            proof {
                assert(s@.subrange(start as int, start as int) =~= Seq::<char>::empty());
            }
        } else {
            proof {
                assert(cur.push(s@[i as int]) =~= s@.subrange(start as int, i as int + 1));
            }
        }
        i = i + 1;
    }
    proof {
        assert(s@.skip(n as int) =~= Seq::<char>::empty());
    }
    if start < n {
        let ghost cur = s@.subrange(start as int, n as int);
        let tok = s.substring_char(start, n).to_owned();
        proof {
            assert(string_views(out@.push(tok)) =~= string_views(out@).push(cur));
            assert(string_views(out@).push(cur) =~= string_views(out@) + seq![cur]);
        }
        out.push(tok);
    } else {
        proof {
            assert(string_views(out@) + Seq::<Seq<char>>::empty() =~= string_views(out@));
        }
    }
    out
}

/// A token is known in a word list iff its lowercase folding occurs there.
pub open spec fn known_in(lex: Seq<Seq<char>>, token: Seq<char>) -> bool {
    lex.contains(lower_of(token))
}

/// Every token of `s` is known in the word list.
pub open spec fn fully_known_in(lex: Seq<Seq<char>>, s: Seq<char>) -> bool {
    forall|i: int| 0 <= i < tokens(s).len() ==> known_in(lex, #[trigger] tokens(s)[i])
}

/// The word list: a fixed, read-only resource, constructed once and then
/// only read.
pub struct Lexicon {
    pub words: Vec<String>,
}

impl View for Lexicon {
    type V = Seq<Seq<char>>;

    open spec fn view(&self) -> Seq<Seq<char>> {
        string_views(self.words@)
    }
}

impl Lexicon {
    /// Builds the validator from the base word list, appending the fixed
    /// domain extra words.
    pub fn new(base: Vec<String>) -> (r: Lexicon)
        ensures
            r@ == string_views(base@) + seq!["handpainted"@, "stardust"@],
    {
        let ghost base_views = string_views(base@);
        let mut words = base;
        let w1 = String::from_str("handpainted");
        let w2 = String::from_str("stardust");
        proof {
            assert(string_views(words@.push(w1).push(w2)) =~= base_views + seq![
                "handpainted"@,
                "stardust"@,
            ]);
        }
        words.push(w1);
        words.push(w2);
        Lexicon { words }
    }

    /// A token is known iff its lowercase folding occurs in the word list.
    pub open spec fn spec_known(self, token: Seq<char>) -> bool {
        known_in(self@, token)
    }

    /// Every token of `s` is known.
    pub open spec fn spec_fully_known(self, s: Seq<char>) -> bool {
        fully_known_in(self@, s)
    }

    fn contains_word(&self, w: &String) -> (r: bool)
        ensures
            r == self@.contains(w@),
    {
        let mut i: usize = 0;
        while i < self.words.len()
            invariant
                i <= self.words.len(),
                forall|j: int| 0 <= j < i ==> self@[j] != w@,
            decreases self.words.len() - i,
        {
            if self.words[i] == *w {
                proof {
                    assert(self@[i as int] == w@);
                }
                return true;
            }
            i = i + 1;
        }
        false
    }

    /// Case-insensitive membership: whether the lowercase folding of
    /// `token` is a known word.
    pub fn is_known(&self, token: &str) -> (r: bool)
        ensures
            r == self.spec_known(token@),
    {
        let folded = lowercase(token);
        self.contains_word(&folded)
    }

    /// Whether every token of `s` is a known word.
    pub fn is_fully_known(&self, s: &str) -> (r: bool)
        ensures
            r == self.spec_fully_known(s@),
    {
        let toks = tokenize(s);
        let mut i: usize = 0;
        while i < toks.len()
            invariant
                toks.len() == tokens(s@).len(),
                string_views(toks@) == tokens(s@),
                i <= toks.len(),
                forall|j: int| 0 <= j < i ==> self.spec_known(#[trigger] tokens(s@)[j]),
            decreases toks.len() - i,
        {
            proof {
                assert(toks@[i as int]@ == tokens(s@)[i as int]);
            }
            if !self.is_known(toks[i].as_str()) {
                return false;
            }
            i = i + 1;
        }
        true
    }
}

} // verus!
