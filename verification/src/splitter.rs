//! The command-line word splitter: a single left-to-right scan that turns a
//! raw input line into the list of argument words, honoring single quotes,
//! double quotes and backslash escapes.

use vstd::prelude::*;
use vstd::string::StrSliceExecFns;
use vstd::string::StringExecFns;

use crate::shell;
use crate::words::join_words;
use crate::words::lemma_word_views_push;
use crate::words::word_views;

verus! {

/// The quoting context of the scan. Exactly one of the three holds at any
/// instant; a quote-state transition by itself never ends a word.
#[derive(Clone, Copy, Debug, PartialEq, Eq, Structural)]
pub enum QuoteState {
    Unquoted,
    SingleQuoted,
    DoubleQuoted,
}

/// The characters that a backslash escapes inside double quotes. For any
/// other following character the backslash itself is kept.
pub open spec fn dq_escapable(c: char) -> bool {
    c == '\\' || c == '$' || c == '"' || c == '\n'
}

/// Appends the pending word to the output, unless it is empty: empty words
/// are never emitted.
pub open spec fn flush_word(cur: Seq<char>, acc: Seq<Seq<char>>) -> Seq<Seq<char>> {
    if cur.len() > 0 {
        acc.push(cur)
    } else {
        acc
    }
}

/// One step at a time, the whole word scan over the remaining input `s`:
/// `st` is the current quoting context, `cur` the word built so far, and
/// `acc` the words already emitted. Yields the completed word list, or the
/// quote character of a quotation still open at end of input.
///
/// Unquoted, a space ends the word, a quote character opens its context
/// without joining the word, and a backslash makes the one character after
/// it literal (a trailing backslash is dropped). Single-quoted, every
/// character up to the closing quote is literal. Double-quoted, a
/// backslash before `\`, `$`, `"` or a newline escapes it and is dropped;
/// before anything else the backslash is kept as well.
pub open spec fn scan(
    s: Seq<char>,
    st: QuoteState,
    cur: Seq<char>,
    acc: Seq<Seq<char>>,
) -> Result<Seq<Seq<char>>, char>
    decreases s.len(),
{
    if s.len() == 0 {
        match st {
            QuoteState::Unquoted => Ok(flush_word(cur, acc)),
            QuoteState::SingleQuoted => Err('\''),
            QuoteState::DoubleQuoted => Err('"'),
        }
    } else {
        let c = s[0];
        match st {
            QuoteState::Unquoted => {
                if c == ' ' {
                    scan(s.skip(1), QuoteState::Unquoted, Seq::empty(), flush_word(cur, acc))
                } else if c == '\'' {
                    scan(s.skip(1), QuoteState::SingleQuoted, cur, acc)
                } else if c == '"' {
                    scan(s.skip(1), QuoteState::DoubleQuoted, cur, acc)
                } else if c == '\\' {
                    if s.len() == 1 {
                        scan(s.skip(1), QuoteState::Unquoted, cur, acc)
                    } else {
                        scan(s.skip(2), QuoteState::Unquoted, cur.push(s[1]), acc)
                    }
                } else {
                    scan(s.skip(1), QuoteState::Unquoted, cur.push(c), acc)
                }
            },
            QuoteState::SingleQuoted => {
                if c == '\'' {
                    scan(s.skip(1), QuoteState::Unquoted, cur, acc)
                } else {
                    scan(s.skip(1), QuoteState::SingleQuoted, cur.push(c), acc)
                }
            },
            QuoteState::DoubleQuoted => {
                if c == '"' {
                    scan(s.skip(1), QuoteState::Unquoted, cur, acc)
                } else if c == '\\' && s.len() >= 2 {
                    if dq_escapable(s[1]) {
                        scan(s.skip(2), QuoteState::DoubleQuoted, cur.push(s[1]), acc)
                    } else {
                        scan(s.skip(2), QuoteState::DoubleQuoted, cur.push('\\').push(s[1]), acc)
                    }
                } else {
                    scan(s.skip(1), QuoteState::DoubleQuoted, cur.push(c), acc)
                }
            },
        }
    }
}

/// What tokenizing a whole line yields: the ordered words of the line, or
/// the quote character of an unterminated quotation.
pub open spec fn tokenize_spec(s: Seq<char>) -> Result<Seq<Seq<char>>, char> {
    scan(s, QuoteState::Unquoted, Seq::empty(), Seq::empty())
}

/// Splits one raw command line into its argument words. All state is
/// transient: a `Splitter` is built per line and holds only the line.
pub struct Splitter {
    source: String,
}

impl View for Splitter {
    type V = Seq<char>;

    closed spec fn view(&self) -> Seq<char> {
        self.source@
    }
}

impl Splitter {
    pub fn new(source: &str) -> (r: Splitter)
        ensures
            r@ == source@,
    {
        Splitter { source: String::from_str(source) }
    }

    /// Scans the stored line once and returns its words in order, or the
    /// unterminated-quote error.
    pub fn get_splitted(&mut self) -> (r: Result<Vec<String>, shell::Error>)
        ensures
            final(self)@ == old(self)@,
            match r {
                Ok(parts) => tokenize_spec(old(self)@) == Ok::<Seq<Seq<char>>, char>(
                    word_views(parts@),
                ),
                Err(e) => e matches shell::Error::UnterminatedQuote(q) && tokenize_spec(
                    old(self)@,
                ) == Err::<Seq<Seq<char>>, char>(q),
            },
    {
        let source = self.source.clone();
        let n = source.as_str().unicode_len();
        let mut state = QuoteState::Unquoted;
        let mut cur = String::new();
        let mut parts: Vec<String> = Vec::new();
        let mut i: usize = 0;
        proof {
            assert(word_views(parts@) =~= Seq::<Seq<char>>::empty());
            assert(source@.skip(0) =~= source@);
        }
        while i < n
            invariant
                n == source@.len(),
                i <= n,
                scan(source@.skip(i as int), state, cur@, word_views(parts@)) == tokenize_spec(
                    source@,
                ),
            decreases n - i,
        {
            let c = source.as_str().get_char(i);
            let ghost pre = source@.skip(i as int);
            let ghost st0 = state;
            let ghost curv = cur@;
            let ghost wv = word_views(parts@);
            proof {
                assert(pre[0] == source@[i as int]);
                assert(pre.skip(1) =~= source@.skip(i as int + 1));
            }
            match state {
                QuoteState::Unquoted => {
                    if c == ' ' {
                        let ghost partsv = parts@;
                        let ghost curs = cur;
                        if !cur.as_str().is_empty() {
                            parts.push(cur);
                        }
                        cur = String::new();
                        proof {
                            if curv.len() > 0 {
                                lemma_word_views_push(partsv, curs);
                            }
                            assert(word_views(parts@) == flush_word(curv, wv));
                        }
                        i = i + 1;
                    } else if c == '\'' {
                        state = QuoteState::SingleQuoted;
                        i = i + 1;
                    } else if c == '"' {
                        state = QuoteState::DoubleQuoted;
                        i = i + 1;
                    } else if c == '\\' {
                        if i + 1 < n {
                            let d = source.as_str().get_char(i + 1);
                            cur.push(d);
                            proof {
                                assert(pre.len() >= 2);
                                assert(pre[1] == source@[i as int + 1]);
                                assert(pre.skip(2) =~= source@.skip(i as int + 2));
                            }
                            i = i + 2;
                        } else {
                            proof {
                                assert(pre.len() == 1);
                            }
                            i = i + 1;
                        }
                    } else {
                        cur.push(c);
                        i = i + 1;
                    }
                },
                QuoteState::SingleQuoted => {
                    if c == '\'' {
                        state = QuoteState::Unquoted;
                    } else {
                        cur.push(c);
                    }
                    i = i + 1;
                },
                QuoteState::DoubleQuoted => {
                    if c == '"' {
                        state = QuoteState::Unquoted;
                        i = i + 1;
                    } else if c == '\\' && i + 1 < n {
                        let d = source.as_str().get_char(i + 1);
                        proof {
                            assert(pre.len() >= 2);
                            assert(pre[1] == source@[i as int + 1]);
                            assert(pre.skip(2) =~= source@.skip(i as int + 2));
                        }
                        if d == '\\' || d == '$' || d == '"' || d == '\n' {
                            cur.push(d);
                        } else {
                            cur.push('\\');
                            cur.push(d);
                        }
                        i = i + 2;
                    } else {
                        cur.push(c);
                        i = i + 1;
                    }
                },
            }
        }
        proof {
            assert(source@.skip(n as int) =~= Seq::<char>::empty());
        }
        match state {
            QuoteState::Unquoted => {
                let ghost partsv = parts@;
                let ghost curv = cur@;
                let ghost curs = cur;
                if !cur.as_str().is_empty() {
                    parts.push(cur);
                }
                proof {
                    if curv.len() > 0 {
                        lemma_word_views_push(partsv, curs);
                    }
                    assert(word_views(parts@) == flush_word(curv, word_views(partsv)));
                }
                Ok(parts)
            },
            QuoteState::SingleQuoted => Err(shell::Error::UnterminatedQuote('\'')),
            QuoteState::DoubleQuoted => Err(shell::Error::UnterminatedQuote('"')),
        }
    }
}

/// Splits one raw command line into its argument words, or reports the
/// quote character of an unterminated quotation.
pub fn tokenize(line: &str) -> (r: Result<Vec<String>, shell::Error>)
    ensures
        match r {
            Ok(parts) => tokenize_spec(line@) == Ok::<Seq<Seq<char>>, char>(word_views(parts@)),
            Err(e) => e matches shell::Error::UnterminatedQuote(q) && tokenize_spec(line@)
                == Err::<Seq<Seq<char>>, char>(q),
        },
{
    let mut splitter = Splitter::new(line);
    splitter.get_splitted()
}

/// Every word has at least one character.
pub open spec fn all_nonempty(ws: Seq<Seq<char>>) -> bool {
    forall|k: int| 0 <= k < ws.len() ==> ws[k].len() > 0
}

/// A character that reaches the output only through quoting or escaping:
/// plain words are free of them.
pub open spec fn plain_char(c: char) -> bool {
    c != ' ' && c != '\'' && c != '"' && c != '\\'
}

pub open spec fn plain_word(w: Seq<char>) -> bool {
    forall|j: int| 0 <= j < w.len() ==> plain_char(#[trigger] w[j])
}

pub open spec fn all_plain(ws: Seq<Seq<char>>) -> bool {
    forall|k: int| 0 <= k < ws.len() ==> plain_word(#[trigger] ws[k])
}

proof fn lemma_flush_nonempty(cur: Seq<char>, acc: Seq<Seq<char>>)
    requires
        all_nonempty(acc),
    ensures
        all_nonempty(flush_word(cur, acc)),
{
    if cur.len() > 0 {
        assert forall|k: int| 0 <= k < acc.push(cur).len() implies acc.push(cur)[k].len() > 0 by {
            if k < acc.len() {
                assert(acc.push(cur)[k] == acc[k]);
            } else {
                assert(acc.push(cur)[k] == cur);
            }
        }
    }
}

proof fn lemma_scan_nonempty(s: Seq<char>, st: QuoteState, cur: Seq<char>, acc: Seq<Seq<char>>)
    requires
        all_nonempty(acc),
        scan(s, st, cur, acc) is Ok,
    ensures
        all_nonempty(scan(s, st, cur, acc)->Ok_0),
    decreases s.len(),
{
    lemma_flush_nonempty(cur, acc);
    if s.len() == 0 {
    } else {
        let c = s[0];
        match st {
            QuoteState::Unquoted => {
                if c == ' ' {
                    lemma_scan_nonempty(
                        s.skip(1),
                        QuoteState::Unquoted,
                        Seq::empty(),
                        flush_word(cur, acc),
                    );
                } else if c == '\'' {
                    lemma_scan_nonempty(s.skip(1), QuoteState::SingleQuoted, cur, acc);
                } else if c == '"' {
                    lemma_scan_nonempty(s.skip(1), QuoteState::DoubleQuoted, cur, acc);
                } else if c == '\\' {
                    if s.len() == 1 {
                        lemma_scan_nonempty(s.skip(1), QuoteState::Unquoted, cur, acc);
                    } else {
                        lemma_scan_nonempty(s.skip(2), QuoteState::Unquoted, cur.push(s[1]), acc);
                    }
                } else {
                    lemma_scan_nonempty(s.skip(1), QuoteState::Unquoted, cur.push(c), acc);
                }
            },
            QuoteState::SingleQuoted => {
                if c == '\'' {
                    lemma_scan_nonempty(s.skip(1), QuoteState::Unquoted, cur, acc);
                } else {
                    lemma_scan_nonempty(s.skip(1), QuoteState::SingleQuoted, cur.push(c), acc);
                }
            },
            QuoteState::DoubleQuoted => {
                if c == '"' {
                    lemma_scan_nonempty(s.skip(1), QuoteState::Unquoted, cur, acc);
                } else if c == '\\' && s.len() >= 2 {
                    if dq_escapable(s[1]) {
                        lemma_scan_nonempty(
                            s.skip(2),
                            QuoteState::DoubleQuoted,
                            cur.push(s[1]),
                            acc,
                        );
                    } else {
                        lemma_scan_nonempty(
                            s.skip(2),
                            QuoteState::DoubleQuoted,
                            cur.push('\\').push(s[1]),
                            acc,
                        );
                    }
                } else {
                    lemma_scan_nonempty(s.skip(1), QuoteState::DoubleQuoted, cur.push(c), acc);
                }
            },
        }
    }
}

/// Empty words are never emitted: every word that a successful
/// tokenization yields has at least one character.
pub proof fn lemma_tokenize_words_nonempty(s: Seq<char>, ws: Seq<Seq<char>>)
    requires
        tokenize_spec(s) == Ok::<Seq<Seq<char>>, char>(ws),
    ensures
        all_nonempty(ws),
{
    lemma_scan_nonempty(s, QuoteState::Unquoted, Seq::empty(), Seq::empty());
}

proof fn lemma_scan_plain_word(w: Seq<char>, s: Seq<char>, cur: Seq<char>, acc: Seq<Seq<char>>)
    requires
        plain_word(w),
    ensures
        scan(w + s, QuoteState::Unquoted, cur, acc) == scan(
            s,
            QuoteState::Unquoted,
            cur + w,
            acc,
        ),
    decreases w.len(),
{
    if w.len() == 0 {
        assert(w + s =~= s);
        assert(cur + w =~= cur);
    } else {
        let c = w[0];
        assert((w + s)[0] == c);
        assert(plain_char(c));
        assert((w + s).skip(1) =~= w.skip(1) + s);
        assert(plain_word(w.skip(1))) by {
            assert forall|j: int| 0 <= j < w.skip(1).len() implies plain_char(
                #[trigger] w.skip(1)[j],
            ) by {
                assert(w.skip(1)[j] == w[j + 1]);
            }
        }
        lemma_scan_plain_word(w.skip(1), s, cur.push(c), acc);
        assert(cur.push(c) + w.skip(1) =~= cur + w);
    }
}

proof fn lemma_scan_join(ws: Seq<Seq<char>>, acc: Seq<Seq<char>>)
    requires
        all_plain(ws),
        all_nonempty(ws),
    ensures
        scan(join_words(ws, ' '), QuoteState::Unquoted, Seq::empty(), acc) == Ok::<
            Seq<Seq<char>>,
            char,
        >(acc + ws),
    decreases ws.len(),
{
    if ws.len() == 0 {
        assert(acc + ws =~= acc);
    } else if ws.len() == 1 {
        let w = ws[0];
        assert(plain_word(w) && w.len() > 0);
        lemma_scan_plain_word(w, Seq::empty(), Seq::empty(), acc);
        assert(w + Seq::<char>::empty() =~= w);
        assert(Seq::<char>::empty() + w =~= w);
        assert(acc.push(w) =~= acc + ws);
    } else {
        let w = ws[0];
        let rest = ws.skip(1);
        let tail = join_words(rest, ' ');
        let s2 = seq![' '] + tail;
        assert(plain_word(w) && w.len() > 0);
        assert(w + seq![' '] + tail =~= w + s2);
        lemma_scan_plain_word(w, s2, Seq::empty(), acc);
        assert(Seq::<char>::empty() + w =~= w);
        assert(s2[0] == ' ');
        assert(s2.skip(1) =~= tail);
        assert(all_plain(rest)) by {
            assert forall|k: int| 0 <= k < rest.len() implies plain_word(#[trigger] rest[k]) by {
                assert(rest[k] == ws[k + 1]);
            }
        }
        assert(all_nonempty(rest)) by {
            assert forall|k: int| 0 <= k < rest.len() implies rest[k].len() > 0 by {
                assert(rest[k] == ws[k + 1]);
            }
        }
        lemma_scan_join(rest, acc.push(w));
        assert(acc.push(w) + rest =~= acc + ws);
    }
}

/// Joining words that are free of spaces, quotes and backslashes with a
/// single space between each and tokenizing the result yields exactly
/// those words.
pub proof fn lemma_join_then_tokenize(ws: Seq<Seq<char>>)
    requires
        all_plain(ws),
        all_nonempty(ws),
    ensures
        tokenize_spec(join_words(ws, ' ')) == Ok::<Seq<Seq<char>>, char>(ws),
{
    lemma_scan_join(ws, Seq::empty());
    assert(Seq::<Seq<char>>::empty() + ws =~= ws);
}

/// Tokenizing reaches a fixed point across a re-join: when every word of a
/// successful tokenization is free of spaces, quotes and backslashes —
/// such a character in a word came from quoting or escaping, which a
/// re-join does not restore — joining the words with a single space
/// between each and tokenizing again yields the same words.
pub proof fn lemma_tokenize_join_fixed_point(s: Seq<char>, ws: Seq<Seq<char>>)
    requires
        tokenize_spec(s) == Ok::<Seq<Seq<char>>, char>(ws),
        all_plain(ws),
    ensures
        tokenize_spec(join_words(ws, ' ')) == tokenize_spec(s),
{
    lemma_tokenize_words_nonempty(s, ws);
    lemma_join_then_tokenize(ws);
}

} // verus!
