//! The lookup orchestrator: a surface word is tokenized, its morphological
//! lemma tried against the lexicon first, then the raw surface form; the
//! all-candidates mode merges both passes and deduplicates by canonical
//! surface word.
use vstd::prelude::*;

use crate::errors::LookupError;
use crate::tokenize::{token_view_fn, tokenization, tokenize_text};
use crate::translation::{MyDictionary, MyEntry, MyEntryDisplay, spec_display, spec_find,
    spec_find_all, spec_word_string};

verus! {

/// The detail index the lemma is taken from.
pub const LEMMA_DETAIL: usize = 6;

/// The detail index the phonetic reading is taken from.
pub const READING_DETAIL: usize = 7;

/// One token of the external tokenizer, reduced to its detail fields.
pub struct MyToken {
    pub details: Vec<String>,
}

/// A token's detail fields, as character sequences.
pub open spec fn details_fn() -> spec_fn(MyToken) -> Seq<Seq<char>> {
    |t: MyToken| t.details.deep_view()
}

/// The detail list kept from a raw tokenizer token.
pub open spec fn details_of_fn() -> spec_fn((Seq<char>, Seq<Seq<char>>)) -> Seq<Seq<char>> {
    |p: (Seq<char>, Seq<Seq<char>>)| p.1
}

/// The lemma a single token carries, if its details reach that field.
pub open spec fn spec_token_lemma(d: Seq<Seq<char>>) -> Option<Seq<char>> {
    if d.len() > LEMMA_DETAIL {
        Some(d[LEMMA_DETAIL as int])
    } else {
        None
    }
}

/// The lemma of a token list: the first token's lemma; nothing when there is
/// no first token or it has no lemma field.
pub open spec fn spec_lemma_of_tokens(ts: Seq<Seq<Seq<char>>>) -> Option<Seq<char>> {
    if ts.len() == 0 {
        None
    } else {
        spec_token_lemma(ts[0])
    }
}

/// The fragment one token contributes to the assembled reading: its reading
/// field, else its first detail, else nothing.
pub open spec fn spec_token_fragment(d: Seq<Seq<char>>) -> Seq<char> {
    if d.len() > READING_DETAIL {
        d[READING_DETAIL as int]
    } else if d.len() > 0 {
        d[0]
    } else {
        Seq::empty()
    }
}

/// The reading assembled from a token list, token by token.
pub open spec fn spec_reading_of_tokens(ts: Seq<Seq<Seq<char>>>) -> Seq<char>
    decreases ts.len(),
{
    if ts.len() == 0 {
        Seq::empty()
    } else {
        spec_reading_of_tokens(ts.drop_last()) + spec_token_fragment(ts.last())
    }
}

impl MyToken {
    /// The token's first detail field.
    pub fn text(&self) -> (r: &str)
        requires
            self.details@.len() > 0,
        ensures
            r@ == self.details.deep_view()[0],
    {
        proof {
            assert(self.details.deep_view()[0] == self.details@[0]@);
        }
        self.details[0].as_str()
    }

    /// The token's phonetic reading field, when its details reach it.
    pub fn reading(&self) -> (r: Option<&str>)
        ensures
            match r {
                Some(s) => self.details@.len() > READING_DETAIL && s@ == self.details.deep_view()[
                    READING_DETAIL as int
                ],
                None => self.details@.len() <= READING_DETAIL,
            },
    {
        if self.details.len() > READING_DETAIL {
            proof {
                assert(self.details.deep_view()[READING_DETAIL as int]
                    == self.details@[READING_DETAIL as int]@);
            }
            Some(self.details[READING_DETAIL].as_str())
        } else {
            None
        }
    }

    /// The token's lemma field, when its details reach it.
    pub fn lemma(&self) -> (r: Option<&str>)
        ensures
            match r {
                Some(s) => spec_token_lemma(self.details.deep_view()) == Some(s@),
                None => spec_token_lemma(self.details.deep_view()) is None,
            },
    {
        if self.details.len() > LEMMA_DETAIL {
            proof {
                assert(self.details.deep_view()[LEMMA_DETAIL as int]
                    == self.details@[LEMMA_DETAIL as int]@);
            }
            Some(self.details[LEMMA_DETAIL].as_str())
        } else {
            None
        }
    }
}

/// The lemma of a token list, per `spec_lemma_of_tokens`; `NoLemma` when
/// there is none.
pub fn lemma_of_tokens(tokens: &Vec<MyToken>) -> (r: Result<String, LookupError>)
    ensures
        match spec_lemma_of_tokens(tokens@.map_values(details_fn())) {
            Some(l) => r matches Ok(s) && s@ == l,
            None => r == Err::<String, LookupError>(LookupError::NoLemma),
        },
{
    let ghost tv = tokens@.map_values(details_fn());
    if tokens.len() == 0 {
        return Err(LookupError::NoLemma);
    }
    proof {
        assert(tv[0] == details_fn()(tokens@[0]));
    }
    match tokens[0].lemma() {
        Some(l) => {
            let mut s = String::new();
            s.append(l);
            Ok(s)
        },
        None => Err(LookupError::NoLemma),
    }
}

/// Assembles the reading of a token list, per `spec_reading_of_tokens`:
/// each token contributes its reading field, or its first detail where it
/// has no reading.
pub fn reading_of_tokens(tokens: &Vec<MyToken>) -> (r: String)
    ensures
        r@ == spec_reading_of_tokens(tokens@.map_values(details_fn())),
{
    let ghost tv = tokens@.map_values(details_fn());
    let mut r = String::new();
    let mut i: usize = 0;
    while i < tokens.len()
        invariant
            i <= tokens@.len(),
            tv == tokens@.map_values(details_fn()),
            tv.len() == tokens@.len(),
            r@ == spec_reading_of_tokens(tv.take(i as int)),
        decreases tokens@.len() - i,
    {
        proof {
            assert(tv.take(i + 1 as int).drop_last() =~= tv.take(i as int));
            assert(tv.take(i + 1 as int).last() == tv[i as int]);
            assert(tv[i as int] == details_fn()(tokens@[i as int]));
        }
        let t = &tokens[i];
        match t.reading() {
            Some(s) => {
                r.append(s);
            },
            None => {
                if t.details.len() > 0 {
                    let s = t.text();
                    r.append(s);
                }
            },
        }
        i = i + 1;
    }
    proof {
        assert(tv.take(tv.len() as int) =~= tv);
    }
    r
}

/// A surface word under resolution. The lexicon and the tokenizer are handed
/// in by the caller; the word owns nothing else.
pub struct Word {
    word: String,
}

/// What the single-hit resolution of a word returns, given what the
/// tokenizer yields for it: `NoLemma` without a usable lemma, else the
/// lemma's hit, else the surface form's hit, else nothing.
pub open spec fn spec_resolve_primary(word: Seq<char>, entries: Seq<MyEntry>) -> Result<
    Option<MyEntry>,
    LookupError,
> {
    match spec_lemma_of_tokens(tokenization(word).map_values(details_of_fn())) {
        None => Err(LookupError::NoLemma),
        Some(l) => match spec_find(entries, l) {
            Some(e) => Ok(Some(e)),
            None => match spec_find(entries, word) {
                Some(e) => Ok(Some(e)),
                None => Ok(None),
            },
        },
    }
}

impl Word {
    /// Wraps a surface word for resolution.
    pub fn new(word: String) -> (r: Self)
        ensures
            r.spec_word() == word@,
    {
        Word { word }
    }

    /// The wrapped word.
    pub closed spec fn spec_word(&self) -> Seq<char> {
        self.word@
    }

    /// The word as a string slice.
    pub fn as_str(&self) -> (r: &str)
        ensures
            r@ == self.spec_word(),
    {
        self.word.as_str()
    }

    /// Tokenizes the word through the external tokenizer; `None` when the
    /// tokenizer is unavailable or fails.
    pub fn tokenize(&self) -> (r: Option<Vec<MyToken>>)
        ensures
            r matches Some(ts) ==> ts@.map_values(details_fn()) == tokenization(
                self.spec_word(),
            ).map_values(details_of_fn()),
    {
        let raw = tokenize_text(self.word.as_str());
        match raw {
            Some(rts) => {
                let ghost rv = rts@.map_values(token_view_fn());
                let mut out: Vec<MyToken> = Vec::new();
                let mut i: usize = 0;
                while i < rts.len()
                    invariant
                        i <= rts@.len(),
                        rv == rts@.map_values(token_view_fn()),
                        rv.len() == rts@.len(),
                        out@.len() == i,
                        forall|j: int|
                            0 <= j < i ==> (#[trigger] out@[j]).details.deep_view() == rv[j].1,
                    decreases rts@.len() - i,
                {
                    let ghost n0 = out@.len();
                    let t = &rts[i];
                    let details = t.details.clone();
                    proof {
                        assert(rv[i as int] == token_view_fn()(rts@[i as int]));
                        assert(details.deep_view() =~~= rts@[i as int].details.deep_view()) by {
                            assert(forall|j: int|
                                0 <= j < details@.len() ==> details@[j]@ == rts@[i as int].details@[
                                    j
                                ]@);
                        }
                    }
                    out.push(MyToken { details });
                    i = i + 1;
                }
                proof {
                    assert(out@.map_values(details_fn()) =~= rv.map_values(details_of_fn()));
                }
                Some(out)
            },
            None => None,
        }
    }

    /// The word's morphological lemma: the first token's lemma field.
    /// `NoLemma` when the tokenizer fails, yields no token, or the token has
    /// no lemma.
    pub fn get_lemma(&self) -> (r: Result<String, LookupError>)
        ensures
            r is Err ==> r == Err::<String, LookupError>(LookupError::NoLemma),
            r matches Ok(l) ==> spec_lemma_of_tokens(
                tokenization(self.spec_word()).map_values(details_of_fn()),
            ) == Some(l@),
    {
        match self.tokenize() {
            Some(tokens) => lemma_of_tokens(&tokens),
            None => Err(LookupError::NoLemma),
        }
    }

    /// The word's reading assembled from its tokens; fails as the reading
    /// cannot be derived when the tokenizer does.
    pub fn to_hiragana(&self) -> (r: Result<String, LookupError>)
        ensures
            r is Err ==> r == Err::<String, LookupError>(LookupError::ReadingNotProvided),
            r matches Ok(h) ==> h@ == spec_reading_of_tokens(
                tokenization(self.spec_word()).map_values(details_of_fn()),
            ),
    {
        match self.tokenize() {
            Some(tokens) => Ok(reading_of_tokens(&tokens)),
            None => Err(LookupError::ReadingNotProvided),
        }
    }

    /// Resolves the word against the lexicon through the given token list:
    /// lemma first, surface form second, per `spec_resolve_primary`'s ladder.
    pub fn find_in_dictionary_with_tokens<'a>(
        &self,
        tokens: &Vec<MyToken>,
        dictionary: &'a MyDictionary,
    ) -> (r: Result<Option<&'a MyEntry>, LookupError>)
        requires
            dictionary.wf(),
        ensures
            match spec_lemma_of_tokens(tokens@.map_values(details_fn())) {
                None => r == Err::<Option<&'a MyEntry>, LookupError>(LookupError::NoLemma),
                Some(l) => match spec_find(dictionary.spec_entries(), l) {
                    Some(e) => r matches Ok(Some(p)) && *p == e,
                    None => match spec_find(dictionary.spec_entries(), self.spec_word()) {
                        Some(e) => r matches Ok(Some(p)) && *p == e,
                        None => r matches Ok(o) && o is None,
                    },
                },
            },
    {
        let lemma = match lemma_of_tokens(tokens) {
            Ok(l) => l,
            Err(_) => {
                return Err(LookupError::NoLemma);
            },
        };
        match dictionary.find(&lemma) {
            Some(e) => Ok(Some(e)),
            None => {
                match dictionary.find(&self.word) {
                    Some(e) => Ok(Some(e)),
                    None => Ok(None),
                }
            },
        }
    }

    /// Resolves the word against the lexicon: tokenize, then the ladder of
    /// `spec_resolve_primary`. `NoLemma` is the only failure; a word that is
    /// simply absent resolves to `Ok(None)`.
    pub fn find_in_dictionary<'a>(&self, dictionary: &'a MyDictionary) -> (r: Result<
        Option<&'a MyEntry>,
        LookupError,
    >)
        requires
            dictionary.wf(),
        ensures
            r is Err ==> r == Err::<Option<&'a MyEntry>, LookupError>(LookupError::NoLemma),
            r matches Ok(o) ==> spec_resolve_primary(self.spec_word(), dictionary.spec_entries())
                == Ok::<Option<MyEntry>, LookupError>(
                match o {
                    Some(e) => Some(*e),
                    None => None,
                },
            ),
    {
        match self.tokenize() {
            Some(tokens) => self.find_in_dictionary_with_tokens(&tokens, dictionary),
            None => Err(LookupError::NoLemma),
        }
    }
}

/// Whether some entry of `s` has `w` as its canonical surface word.
pub open spec fn spec_has_word(s: Seq<MyEntry>, w: Option<Seq<char>>) -> bool {
    exists|i: int| 0 <= i < s.len() && spec_word_string(s[i]) == w
}

/// `s` with every entry dropped whose canonical surface word was already
/// seen earlier in the sequence; first occurrences survive, in order.
pub open spec fn spec_dedup_by_word(s: Seq<MyEntry>) -> Seq<MyEntry>
    decreases s.len(),
{
    if s.len() == 0 {
        Seq::empty()
    } else {
        let d = spec_dedup_by_word(s.drop_last());
        if spec_has_word(d, spec_word_string(s.last())) {
            d
        } else {
            d.push(s.last())
        }
    }
}

/// Deduplication leaves no two entries with the same canonical surface
/// word.
pub proof fn lemma_dedup_distinct(s: Seq<MyEntry>)
    ensures
        forall|i: int, j: int|
            0 <= i < j < spec_dedup_by_word(s).len() ==> spec_word_string(
                #[trigger] spec_dedup_by_word(s)[i],
            ) != spec_word_string(#[trigger] spec_dedup_by_word(s)[j]),
    decreases s.len(),
{
    if s.len() > 0 {
        lemma_dedup_distinct(s.drop_last());
        let d = spec_dedup_by_word(s.drop_last());
        let w = spec_word_string(s.last());
        if !spec_has_word(d, w) {
            assert forall|i: int, j: int|
                0 <= i < j < spec_dedup_by_word(s).len() implies spec_word_string(
                #[trigger] spec_dedup_by_word(s)[i],
            ) != spec_word_string(#[trigger] spec_dedup_by_word(s)[j]) by {
                if j == d.len() {
                    assert(spec_dedup_by_word(s)[i] == d[i]);
                    if spec_word_string(d[i]) == w {
                        assert(spec_has_word(d, w));
                    }
                } else {
                    assert(spec_dedup_by_word(s)[i] == d[i]);
                    assert(spec_dedup_by_word(s)[j] == d[j]);
                }
            }
        }
    }
}

/// The entries of a reference sequence, by value.
pub open spec fn deref_entries(s: Seq<&MyEntry>) -> Seq<MyEntry> {
    Seq::new(s.len(), |i: int| *s[i])
}

/// The merged, deduplicated candidate list of a lemma pass and a surface
/// pass: every multi-hit match of either key, first occurrence of each
/// canonical surface word kept, in tier-then-pass order.
pub open spec fn spec_all_candidates(
    entries: Seq<MyEntry>,
    lemma: Seq<char>,
    word: Seq<char>,
) -> Seq<MyEntry> {
    spec_dedup_by_word(spec_find_all(entries, lemma) + spec_find_all(entries, word))
}

/// Does `out` already hold an entry whose canonical word equals `w`?
fn out_has_word(out: &Vec<&MyEntry>, w: &Option<String>) -> (r: bool)
    ensures
        r == spec_has_word(
            deref_entries(out@),
            match w {
                Some(sw) => Some(sw@),
                None => None,
            },
        ),
{
    let ghost wv: Option<Seq<char>> = match w {
        Some(sw) => Some(sw@),
        None => None,
    };
    let mut k: usize = 0;
    while k < out.len()
        invariant
            k <= out@.len(),
            wv == (match w {
                Some(sw) => Some(sw@),
                None => None::<Seq<char>>,
            }),
            forall|j: int| 0 <= j < k ==> spec_word_string(#[trigger] deref_entries(out@)[j]) != wv,
        decreases out@.len() - k,
    {
        let ew = out[k].word_string();
        let same = match (&ew, w) {
            (Some(a), Some(b)) => a.eq(b),
            (None, None) => true,
            _ => false,
        };
        proof {
            assert(deref_entries(out@)[k as int] == *out@[k as int]);
        }
        if same {
            proof {
                assert(spec_word_string(deref_entries(out@)[k as int]) == wv);
            }
            return true;
        }
        k = k + 1;
    }
    proof {
        if spec_has_word(deref_entries(out@), wv) {
            let i = choose|i: int|
                0 <= i < deref_entries(out@).len() && spec_word_string(
                    #[trigger] deref_entries(out@)[i],
                ) == wv;
            assert(false);
        }
    }
    false
}

/// Keeps the first entry for each canonical surface word, dropping later
/// duplicates, per `spec_dedup_by_word`.
pub fn unique_entries<'a>(entries: Vec<&'a MyEntry>) -> (r: Vec<&'a MyEntry>)
    ensures
        r@.len() == spec_dedup_by_word(deref_entries(entries@)).len(),
        forall|k: int|
            0 <= k < r@.len() ==> *#[trigger] r@[k] == spec_dedup_by_word(deref_entries(entries@))[
                k
            ],
{
    let ghost dd = deref_entries(entries@);
    let mut out: Vec<&'a MyEntry> = Vec::new();
    let mut i: usize = 0;
    proof {
        assert(dd.take(0) =~= Seq::<MyEntry>::empty());
    }
    while i < entries.len()
        invariant
            i <= entries@.len(),
            dd == deref_entries(entries@),
            dd.len() == entries@.len(),
            out@.len() == spec_dedup_by_word(dd.take(i as int)).len(),
            forall|k: int|
                0 <= k < out@.len() ==> *#[trigger] out@[k] == spec_dedup_by_word(
                    dd.take(i as int),
                )[k],
        decreases entries@.len() - i,
    {
        let ghost d0 = spec_dedup_by_word(dd.take(i as int));
        proof {
            assert(dd.take(i + 1 as int).drop_last() =~= dd.take(i as int));
            assert(dd.take(i + 1 as int).last() == dd[i as int]);
            assert(dd[i as int] == *entries@[i as int]);
        }
        let w = entries[i].word_string();
        let ghost wv: Option<Seq<char>> = match &w {
            Some(sw) => Some(sw@),
            None => None,
        };
        proof {
            assert(wv == spec_word_string(dd[i as int]));
            assert(deref_entries(out@) =~= d0);
        }
        let dup = out_has_word(&out, &w);
        if !dup {
            out.push(entries[i]);
        }
        proof {
            assert(spec_has_word(d0, spec_word_string(dd[i as int])) == dup);
            if dup {
                assert(spec_dedup_by_word(dd.take(i + 1 as int)) == d0);
            } else {
                assert(spec_dedup_by_word(dd.take(i + 1 as int)) == d0.push(dd[i as int]));
            }
        }
        i = i + 1;
    }
    proof {
        assert(dd.take(dd.len() as int) =~= dd);
    }
    out
}

impl Word {
    /// Resolves every candidate of the word through the given token list:
    /// the multi-hit ladder for the lemma, then for the surface form, merged
    /// and deduplicated by canonical surface word. No two results share a
    /// canonical word.
    pub fn find_all_candidates_with_tokens<'a>(
        &self,
        tokens: &Vec<MyToken>,
        dictionary: &'a MyDictionary,
    ) -> (r: Result<Vec<&'a MyEntry>, LookupError>)
        requires
            dictionary.wf(),
        ensures
            match spec_lemma_of_tokens(tokens@.map_values(details_fn())) {
                None => r == Err::<Vec<&'a MyEntry>, LookupError>(LookupError::NoLemma),
                Some(l) => r matches Ok(v) && v@.len() == spec_all_candidates(
                    dictionary.spec_entries(),
                    l,
                    self.spec_word(),
                ).len() && forall|k: int|
                    0 <= k < v@.len() ==> *#[trigger] v@[k] == spec_all_candidates(
                        dictionary.spec_entries(),
                        l,
                        self.spec_word(),
                    )[k],
            },
            r matches Ok(v) ==> forall|i: int, j: int|
                0 <= i < j < v@.len() ==> spec_word_string(*#[trigger] v@[i]) != spec_word_string(
                    *#[trigger] v@[j],
                ),
    {
        let lemma = match lemma_of_tokens(tokens) {
            Ok(l) => l,
            Err(_) => {
                return Err(LookupError::NoLemma);
            },
        };
        let ghost ents = dictionary.spec_entries();
        let ghost cand = spec_find_all(ents, lemma@) + spec_find_all(ents, self.spec_word());
        let mut c = dictionary.find_all(&lemma);
        let mut c2 = dictionary.find_all(&self.word);
        let ghost n1 = c@.len();
        c.append(&mut c2);
        proof {
            assert(deref_entries(c@) =~= cand);
        }
        let u = unique_entries(c);
        proof {
            lemma_dedup_distinct(cand);
            assert forall|i: int, j: int| 0 <= i < j < u@.len() implies spec_word_string(
                *#[trigger] u@[i],
            ) != spec_word_string(*#[trigger] u@[j]) by {
                assert(*u@[i] == spec_dedup_by_word(cand)[i]);
                assert(*u@[j] == spec_dedup_by_word(cand)[j]);
            }
        }
        Ok(u)
    }

    /// Resolves every candidate of the word: tokenize, then the merged and
    /// deduplicated two-pass ladder. No two results share a canonical word;
    /// `NoLemma` is the only failure.
    pub fn find_all_candidates<'a>(&self, dictionary: &'a MyDictionary) -> (r: Result<
        Vec<&'a MyEntry>,
        LookupError,
    >)
        requires
            dictionary.wf(),
        ensures
            r is Err ==> r == Err::<Vec<&'a MyEntry>, LookupError>(LookupError::NoLemma),
            r matches Ok(v) ==> (spec_lemma_of_tokens(
                tokenization(self.spec_word()).map_values(details_of_fn()),
            ) matches Some(l) && v@.len() == spec_all_candidates(
                dictionary.spec_entries(),
                l,
                self.spec_word(),
            ).len() && forall|k: int|
                0 <= k < v@.len() ==> *#[trigger] v@[k] == spec_all_candidates(
                    dictionary.spec_entries(),
                    l,
                    self.spec_word(),
                )[k]),
            r matches Ok(v) ==> forall|i: int, j: int|
                0 <= i < j < v@.len() ==> spec_word_string(*#[trigger] v@[i]) != spec_word_string(
                    *#[trigger] v@[j],
                ),
    {
        match self.tokenize() {
            Some(tokens) => self.find_all_candidates_with_tokens(&tokens, dictionary),
            None => Err(LookupError::NoLemma),
        }
    }
}

/// Resolves a word and projects the single hit for display; `Ok(None)` when
/// the lexicon has no match, `NoLemma` when no lemma can be derived.
pub fn get_word_dict_entry(word: String, dictionary: &MyDictionary) -> (r: Result<
    Option<MyEntryDisplay>,
    LookupError,
>)
    requires
        dictionary.wf(),
    ensures
        match r {
            Ok(Some(d)) => (spec_resolve_primary(word@, dictionary.spec_entries()) matches Ok(
                Some(e),
            ) && spec_display(e, d)),
            Ok(None) => spec_resolve_primary(word@, dictionary.spec_entries()) == Ok::<
                Option<MyEntry>,
                LookupError,
            >(None),
            Err(e2) => e2 == LookupError::NoLemma,
        },
{
    let w = Word::new(word);
    match w.find_in_dictionary(dictionary) {
        Ok(Some(entry)) => {
            let d = entry.entry_display();
            proof {
                assert(spec_resolve_primary(w.spec_word(), dictionary.spec_entries())
                    == Ok::<Option<MyEntry>, LookupError>(Some(*entry)));
                assert(spec_display(*entry, d));
            }
            Ok(Some(d))
        },
        Ok(None) => Ok(None),
        Err(e) => Err(e),
    }
}

/// Resolves every candidate of a word and projects each for display, in
/// candidate order.
pub fn get_word_candidates(word: String, dictionary: &MyDictionary) -> (r: Result<
    Vec<MyEntryDisplay>,
    LookupError,
>)
    requires
        dictionary.wf(),
    ensures
        r is Err ==> r == Err::<Vec<MyEntryDisplay>, LookupError>(LookupError::NoLemma),
        r matches Ok(v) ==> (spec_lemma_of_tokens(
            tokenization(word@).map_values(details_of_fn()),
        ) matches Some(l) && v@.len() == spec_all_candidates(
            dictionary.spec_entries(),
            l,
            word@,
        ).len() && forall|k: int|
            0 <= k < v@.len() ==> spec_display(
                spec_all_candidates(dictionary.spec_entries(), l, word@)[k],
                #[trigger] v@[k],
            )),
{
    let w = Word::new(word);
    let entries = match w.find_all_candidates(dictionary) {
        Ok(v) => v,
        Err(e) => {
            return Err(e);
        },
    };
    let ghost lem = spec_lemma_of_tokens(tokenization(word@).map_values(details_of_fn()));
    let ghost cand = spec_all_candidates(
        dictionary.spec_entries(),
        lem.unwrap(),
        word@,
    );
    let mut out: Vec<MyEntryDisplay> = Vec::new();
    let mut i: usize = 0;
    while i < entries.len()
        invariant
            i <= entries@.len(),
            entries@.len() == cand.len(),
            forall|k: int| 0 <= k < entries@.len() ==> *#[trigger] entries@[k] == cand[k],
            out@.len() == i,
            forall|k: int| 0 <= k < i ==> spec_display(cand[k], #[trigger] out@[k]),
        decreases entries@.len() - i,
    {
        out.push(entries[i].entry_display());
        i = i + 1;
    }
    Ok(out)
}

} // verus!
