//! Splitting a string into segments at a separator character, and joining
//! words back together with a separator between each.

use vstd::prelude::*;
use vstd::string::StrSliceExecFns;
use vstd::string::StringExecFns;

verus! {

/// Relies on `String::push` from std: appends the given character to the
/// end of the string.
pub assume_specification[ String::push ](s: &mut String, c: char)
    ensures
        final(s)@ == old(s)@.push(c),
;

/// The character sequences of a sequence of strings.
pub open spec fn word_views(ws: Seq<String>) -> Seq<Seq<char>> {
    ws.map_values(|w: String| w@)
}

pub proof fn lemma_word_views_push(ws: Seq<String>, w: String)
    ensures
        word_views(ws.push(w)) == word_views(ws).push(w@),
{
    assert(word_views(ws.push(w)) =~= word_views(ws).push(w@));
}

/// One pass of the segment splitter over the remaining input `s`, with the
/// segment built so far `cur` and the segments already completed `acc`.
pub open spec fn split_scan(
    s: Seq<char>,
    sep: char,
    cur: Seq<char>,
    acc: Seq<Seq<char>>,
) -> Seq<Seq<char>>
    decreases s.len(),
{
    if s.len() == 0 {
        acc.push(cur)
    } else if s[0] == sep {
        split_scan(s.skip(1), sep, Seq::empty(), acc.push(cur))
    } else {
        split_scan(s.skip(1), sep, cur.push(s[0]), acc)
    }
}

/// The segments of `s` between occurrences of `sep`. Empty segments are
/// kept, so an empty input yields one empty segment, and a leading `sep`
/// contributes an empty first segment.
pub open spec fn split_on(s: Seq<char>, sep: char) -> Seq<Seq<char>> {
    split_scan(s, sep, Seq::empty(), Seq::empty())
}

/// The words joined with a single `sep` between each.
pub open spec fn join_words(ws: Seq<Seq<char>>, sep: char) -> Seq<char>
    decreases ws.len(),
{
    if ws.len() == 0 {
        Seq::empty()
    } else if ws.len() == 1 {
        ws[0]
    } else {
        ws[0] + seq![sep] + join_words(ws.skip(1), sep)
    }
}

/// Joining one more word appends a separator and that word, except to an
/// empty word list.
pub proof fn lemma_join_words_push(ws: Seq<Seq<char>>, w: Seq<char>, sep: char)
    ensures
        join_words(ws.push(w), sep) == if ws.len() == 0 {
            w
        } else {
            (join_words(ws, sep) + seq![sep] + w)
        },
    decreases ws.len(),
{
    if ws.len() == 0 {
        assert(join_words(ws.push(w), sep) == ws.push(w)[0]);
    } else if ws.len() == 1 {
        assert(ws.push(w).skip(1) =~= seq![w]);
        assert(join_words(seq![w], sep) == w);
        assert(ws.push(w)[0] == ws[0]);
        assert(join_words(ws.push(w), sep) == ws[0] + seq![sep] + w);
    } else {
        assert(ws.push(w).skip(1) =~= ws.skip(1).push(w));
        lemma_join_words_push(ws.skip(1), w, sep);
        assert((ws[0] + seq![sep] + (join_words(ws.skip(1), sep) + seq![sep] + w)) =~= (ws[0]
            + seq![sep] + join_words(ws.skip(1), sep) + seq![sep] + w));
    }
}

/// Splits `s` into the segments between occurrences of `sep`.
pub fn split_on_char(s: &str, sep: char) -> (r: Vec<String>)
    ensures
        word_views(r@) == split_on(s@, sep),
{
    let n = s.unicode_len();
    let mut acc: Vec<String> = Vec::new();
    let mut cur = String::new();
    let mut i: usize = 0;
    proof {
        assert(word_views(acc@) =~= Seq::<Seq<char>>::empty());
        assert(s@.skip(0) =~= s@);
    }
    while i < n
        invariant
            n == s@.len(),
            i <= n,
            split_scan(s@.skip(i as int), sep, cur@, word_views(acc@)) == split_on(s@, sep),
        decreases n - i,
    {
        let c = s.get_char(i);
        proof {
            assert(s@.skip(i as int)[0] == s@[i as int]);
            assert(s@.skip(i as int).skip(1) =~= s@.skip(i as int + 1));
        }
        if c == sep {
            let ghost accv = acc@;
            let ghost curs = cur;
            acc.push(cur);
            cur = String::new();
            proof {
                lemma_word_views_push(accv, curs);
            }
        } else {
            cur.push(c);
        }
        i = i + 1;
    }
    proof {
        assert(s@.skip(n as int) =~= Seq::<char>::empty());
    }
    let ghost accv = acc@;
    let ghost curs = cur;
    acc.push(cur);
    proof {
        lemma_word_views_push(accv, curs);
    }
    acc
}

/// Compares two strings character by character.
pub fn str_eq_str(a: &str, b: &str) -> (r: bool)
    ensures
        r == (a@ == b@),
{
    let na = a.unicode_len();
    let nb = b.unicode_len();
    if na != nb {
        return false;
    }
    let mut i: usize = 0;
    while i < na
        invariant
            na == a@.len(),
            na == b@.len(),
            i <= na,
            forall|j: int| 0 <= j < i ==> a@[j] == b@[j],
        decreases na - i,
    {
        if a.get_char(i) != b.get_char(i) {
            return false;
        }
        i = i + 1;
    }
    proof {
        assert(a@ =~= b@);
    }
    true
}

/// Joins the given words with a single `sep` between each.
pub fn join_with_char(parts: &Vec<String>, sep: char) -> (r: String)
    ensures
        r@ == join_words(word_views(parts@), sep),
{
    let mut r = String::new();
    let mut i: usize = 0;
    while i < parts.len()
        invariant
            i <= parts@.len(),
            r@ == join_words(word_views(parts@).take(i as int), sep),
        decreases parts@.len() - i,
    {
        let ghost prev = r@;
        if i > 0 {
            r.push(sep);
        }
        r.append(parts[i].as_str());
        proof {
            let wv = word_views(parts@);
            assert(parts@[i as int]@ == wv[i as int]);
            lemma_join_words_push(wv.take(i as int), wv[i as int], sep);
            assert(wv.take(i as int).push(wv[i as int]) =~= wv.take(i as int + 1));
            if i > 0 {
                assert(r@ =~= prev + seq![sep] + wv[i as int]);
            } else {
                assert(r@ =~= wv[i as int]);
            }
        }
        i = i + 1;
    }
    proof {
        assert(word_views(parts@).take(parts@.len() as int) =~= word_views(parts@));
    }
    r
}

} // verus!
