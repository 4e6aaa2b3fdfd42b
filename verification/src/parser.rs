//! The phonological side of the engine: expanding a kanji record's raw
//! reading fields into the ordered list of candidate pronunciation fragments
//! (including gemination and voicing variants), scanning a word into a
//! per-character candidate map, and assembling the input of the external
//! furigana alignment solver.
use vstd::prelude::*;

use crate::conversion::{convert, spec_hiragana_of_tokens};
use crate::errors::LookupError;
use crate::kanjidic::{Kanjidic2, Kanjidic2Entry, literal_matches};
use crate::tokenize::tokenization;
use crate::script::{
    REPETITION_MARK, is_logographic, spec_is_logographic, spec_shift_to_secondary,
    shift_to_secondary,
};
use crate::text::{
    chars_to_string, copy_range, first_index_where, lemma_first_index_where_is, spec_split,
    split_chars, str_to_chars,
};

verus! {

/// The unvoiced "tsu" syllable that alternates with the geminate marker.
pub const TSU: char = 'つ';

/// The small geminate marker.
pub const SMALL_TSU: char = 'っ';

/// Keeps every character that is not a kun-reading delimiter: the stem/ending
/// separator and the hyphen are dropped, the rest of the reading is kept.
pub open spec fn marker_kept() -> spec_fn(char) -> bool {
    |c: char| c != '.' && c != '-'
}

/// A raw kun reading with its delimiters dropped.
pub open spec fn spec_remove_markers(s: Seq<char>) -> Seq<char> {
    s.filter(marker_kept())
}

/// Character-wise conversion into the secondary phonetic block.
pub open spec fn shift_fn() -> spec_fn(char) -> char {
    |c: char| spec_shift_to_secondary(c)
}

/// A raw on reading converted into the secondary phonetic block.
pub open spec fn spec_to_secondary(s: Seq<char>) -> Seq<char> {
    s.map_values(shift_fn())
}

/// Normalizes one reading-group field of kun style: split on the segment
/// separator, then drop the delimiters of each segment.
pub open spec fn remove_markers_fn() -> spec_fn(Seq<char>) -> Seq<char> {
    |p: Seq<char>| spec_remove_markers(p)
}

/// Normalizes one reading-group field of on style: split on the segment
/// separator, then convert each segment to the secondary block.
pub open spec fn to_secondary_fn() -> spec_fn(Seq<char>) -> Seq<char> {
    |p: Seq<char>| spec_to_secondary(p)
}

/// The kun-derived candidate fragments of a raw kun field.
pub open spec fn spec_kun_variants(kun: Seq<char>) -> Seq<Seq<char>> {
    spec_split(kun, seq![';']).map_values(remove_markers_fn())
}

/// The on-derived candidate fragments of a raw on field.
pub open spec fn spec_on_variants(on: Seq<char>) -> Seq<Seq<char>> {
    spec_split(on, seq![';']).map_values(to_secondary_fn())
}

/// All candidate fragments before gemination, kun-derived entries first.
pub open spec fn spec_base_readings(kun: Seq<char>, on: Seq<char>) -> Seq<Seq<char>> {
    spec_kun_variants(kun) + spec_on_variants(on)
}

/// A fragment ending in the unvoiced "tsu" syllable.
pub open spec fn spec_ends_tsu(s: Seq<char>) -> bool {
    s.len() > 0 && s.last() == TSU
}

pub open spec fn ends_tsu_fn() -> spec_fn(Seq<char>) -> bool {
    |r: Seq<char>| spec_ends_tsu(r)
}

/// The geminate variant: the trailing syllable replaced by the small marker.
pub open spec fn spec_geminate(s: Seq<char>) -> Seq<char> {
    s.drop_last().push(SMALL_TSU)
}

pub open spec fn geminate_fn() -> spec_fn(Seq<char>) -> Seq<char> {
    |r: Seq<char>| spec_geminate(r)
}

/// The geminate variants of every fragment that ends in the "tsu" syllable,
/// in the order of the fragments they derive from.
pub open spec fn spec_gemination_variants(rs: Seq<Seq<char>>) -> Seq<Seq<char>> {
    rs.filter(ends_tsu_fn()).map_values(geminate_fn())
}

/// The full expansion of a record's reading fields: every normalized
/// fragment, kun-derived first, followed by the geminate variants. Nothing is
/// replaced: the variants are appended after the originals.
pub open spec fn spec_expand_readings(kun: Seq<char>, on: Seq<char>) -> Seq<Seq<char>> {
    spec_base_readings(kun, on) + spec_gemination_variants(spec_base_readings(kun, on))
}

/// Variant expansion never drops an original: every base fragment keeps its
/// position, and a fragment ending in the "tsu" syllable is followed,
/// somewhere after it, by its geminate variant.
pub proof fn lemma_gemination_order(kun: Seq<char>, on: Seq<char>, i: int)
    requires
        0 <= i < spec_base_readings(kun, on).len(),
    ensures
        spec_expand_readings(kun, on)[i] == spec_base_readings(kun, on)[i],
        spec_ends_tsu(spec_base_readings(kun, on)[i]) ==> exists|j: int|
            i < j < spec_expand_readings(kun, on).len() && spec_expand_readings(kun, on)[j]
                == spec_geminate(spec_base_readings(kun, on)[i]),
{
    let b = spec_base_readings(kun, on);
    let e = spec_expand_readings(kun, on);
    assert(e[i] == b[i]);
    if spec_ends_tsu(b[i]) {
        assert(ends_tsu_fn()(b[i]));
        Seq::lemma_filter_contains(b, ends_tsu_fn(), i);
        let f = b.filter(ends_tsu_fn());
        let k = choose|k: int| 0 <= k < f.len() && f[k] == b[i];
        assert(spec_gemination_variants(b)[k] == spec_geminate(b[i]));
        assert(e[b.len() + k] == spec_geminate(b[i]));
    }
}

/// Drops the kun-reading delimiters of one segment, per `spec_remove_markers`.
fn filter_markers(piece: &Vec<char>) -> (r: Vec<char>)
    ensures
        r@ == spec_remove_markers(piece@),
{
    let mut r: Vec<char> = Vec::new();
    let mut i: usize = 0;
    proof {
        reveal(Seq::filter);
        assert(piece@.take(0).filter(marker_kept()) =~= Seq::<char>::empty());
    }
    while i < piece.len()
        invariant
            i <= piece@.len(),
            r@ == piece@.take(i as int).filter(marker_kept()),
        decreases piece@.len() - i,
    {
        let c = piece[i];
        proof {
            reveal(Seq::filter);
            assert(piece@.take(i + 1 as int).drop_last() =~= piece@.take(i as int));
            assert(piece@.take(i + 1 as int).last() == piece@[i as int]);
        }
        if c != '.' && c != '-' {
            r.push(c);
        }
        i = i + 1;
    }
    proof {
        assert(piece@.take(piece@.len() as int) =~= piece@);
    }
    r
}

/// Converts one segment to the secondary block, per `spec_to_secondary`.
fn shift_all(piece: &Vec<char>) -> (r: Vec<char>)
    ensures
        r@ == spec_to_secondary(piece@),
{
    let mut r: Vec<char> = Vec::new();
    let mut i: usize = 0;
    while i < piece.len()
        invariant
            i <= piece@.len(),
            r@ == piece@.take(i as int).map_values(shift_fn()),
        decreases piece@.len() - i,
    {
        let c = shift_to_secondary(piece[i]);
        r.push(c);
        proof {
            assert(r@ =~= piece@.take(i + 1 as int).map_values(shift_fn()));
        }
        i = i + 1;
    }
    proof {
        assert(piece@.take(piece@.len() as int) =~= piece@);
    }
    r
}

/// Splits a kun-style reading-group field into its normalized fragments.
fn kun_fragments(field: &String) -> (r: Vec<String>)
    ensures
        r.deep_view() == spec_kun_variants(field@),
{
    let cs = str_to_chars(field.as_str());
    let sep: Vec<char> = vec![';'];
    proof {
        assert(sep@ =~= seq![';']);
    }
    let pieces = split_chars(&cs, &sep);
    let ghost sp = spec_split(field@, seq![';']);
    let mut r: Vec<String> = Vec::new();
    let mut i: usize = 0;
    while i < pieces.len()
        invariant
            i <= pieces@.len(),
            pieces.deep_view() == sp,
            sp == spec_split(field@, seq![';']),
            pieces@.len() == sp.len(),
            r.deep_view() =~= sp.map_values(remove_markers_fn()).take(i as int),
        decreases pieces@.len() - i,
    {
        proof {
            assert(pieces.deep_view()[i as int] == pieces@[i as int]@);
        }
        let f = filter_markers(&pieces[i]);
        let s = chars_to_string(&f);
        let ghost rdv0 = r.deep_view();
        r.push(s);
        proof {
            let m = sp.map_values(remove_markers_fn());
            assert(f@ == spec_remove_markers(sp[i as int]));
            assert(m[i as int] == remove_markers_fn()(sp[i as int]));
            assert(remove_markers_fn()(sp[i as int]) == spec_remove_markers(sp[i as int]));
            assert(r.deep_view().len() == rdv0.len() + 1);
            assert(forall|j: int| 0 <= j < rdv0.len() ==> r.deep_view()[j] == rdv0[j]);
            assert(r.deep_view()[rdv0.len() as int] == s@);
            assert(r.deep_view() =~= m.take(i + 1 as int));
        }
        i = i + 1;
    }
    proof {
        assert(sp.map_values(remove_markers_fn()).take(sp.len() as int) =~= sp.map_values(
            remove_markers_fn(),
        ));
    }
    r
}

/// Splits an on-style reading-group field into its normalized fragments.
fn on_fragments(field: &String) -> (r: Vec<String>)
    ensures
        r.deep_view() == spec_on_variants(field@),
{
    let cs = str_to_chars(field.as_str());
    let sep: Vec<char> = vec![';'];
    proof {
        assert(sep@ =~= seq![';']);
    }
    let pieces = split_chars(&cs, &sep);
    let ghost sp = spec_split(field@, seq![';']);
    let mut r: Vec<String> = Vec::new();
    let mut i: usize = 0;
    while i < pieces.len()
        invariant
            i <= pieces@.len(),
            pieces.deep_view() == sp,
            sp == spec_split(field@, seq![';']),
            pieces@.len() == sp.len(),
            r.deep_view() =~= sp.map_values(to_secondary_fn()).take(i as int),
        decreases pieces@.len() - i,
    {
        proof {
            assert(pieces.deep_view()[i as int] == pieces@[i as int]@);
        }
        let f = shift_all(&pieces[i]);
        let s = chars_to_string(&f);
        let ghost rdv0 = r.deep_view();
        r.push(s);
        proof {
            let m = sp.map_values(to_secondary_fn());
            assert(f@ == spec_to_secondary(sp[i as int]));
            assert(m[i as int] == to_secondary_fn()(sp[i as int]));
            assert(to_secondary_fn()(sp[i as int]) == spec_to_secondary(sp[i as int]));
            assert(r.deep_view().len() == rdv0.len() + 1);
            assert(forall|j: int| 0 <= j < rdv0.len() ==> r.deep_view()[j] == rdv0[j]);
            assert(r.deep_view()[rdv0.len() as int] == s@);
            assert(r.deep_view() =~= m.take(i + 1 as int));
        }
        i = i + 1;
    }
    proof {
        assert(sp.map_values(to_secondary_fn()).take(sp.len() as int) =~= sp.map_values(
            to_secondary_fn(),
        ));
    }
    r
}

/// Appends, after the base fragments, the geminate variant of every fragment
/// ending in the "tsu" syllable, keeping every original in place.
fn append_gemination(base: Vec<String>) -> (r: Vec<String>)
    ensures
        r.deep_view() == base.deep_view() + spec_gemination_variants(base.deep_view()),
{
    let ghost bdv = base.deep_view();
    let n = base.len();
    let mut r = base;
    let mut k: usize = 0;
    proof {
        reveal(Seq::filter);
        assert(bdv.take(0).filter(ends_tsu_fn()) =~= Seq::<Seq<char>>::empty());
        assert(r.deep_view() =~= bdv + bdv.take(0).filter(ends_tsu_fn()).map_values(
            geminate_fn(),
        ));
    }
    while k < n
        invariant
            k <= n,
            n == bdv.len(),
            r@.len() >= n,
            forall|j: int| 0 <= j < n ==> r.deep_view()[j] == bdv[j],
            r.deep_view() =~= bdv + bdv.take(k as int).filter(ends_tsu_fn()).map_values(
                geminate_fn(),
            ),
        decreases n - k,
    {
        let cs = str_to_chars(r[k].as_str());
        proof {
            reveal(Seq::filter);
            assert(r.deep_view()[k as int] == r@[k as int]@);
            assert(bdv.take(k + 1 as int).drop_last() =~= bdv.take(k as int));
            assert(bdv.take(k + 1 as int).last() == bdv[k as int]);
        }
        if cs.len() > 0 && cs[cs.len() - 1] == TSU {
            let mut g = copy_range(&cs, 0, cs.len() - 1);
            g.push(SMALL_TSU);
            let gs = chars_to_string(&g);
            let ghost rdv0 = r.deep_view();
            proof {
                assert(g@ =~= spec_geminate(bdv[k as int]));
            }
            r.push(gs);
            proof {
                reveal(Seq::filter);
                assert(spec_ends_tsu(bdv[k as int]));
                assert(ends_tsu_fn()(bdv[k as int]));
                let f0 = bdv.take(k as int).filter(ends_tsu_fn());
                let f1 = bdv.take(k + 1 as int).filter(ends_tsu_fn());
                assert(f1 == f0.push(bdv[k as int]));
                assert(f1.map_values(geminate_fn()) =~= f0.map_values(geminate_fn()).push(
                    spec_geminate(bdv[k as int]),
                ));
                assert(r.deep_view().len() == rdv0.len() + 1);
                assert(forall|j: int| 0 <= j < rdv0.len() ==> r.deep_view()[j] == rdv0[j]);
                assert(r.deep_view()[rdv0.len() as int] == gs@);
                let m0 = f0.map_values(geminate_fn());
                let m1 = f1.map_values(geminate_fn());
                assert(rdv0.len() == bdv.len() + m0.len());
                assert(m1.len() == m0.len() + 1);
                assert forall|j: int| 0 <= j < r.deep_view().len() implies r.deep_view()[j] == (bdv
                    + m1)[j] by {
                    if j < bdv.len() {
                        assert(r.deep_view()[j] == rdv0[j]);
                        assert(rdv0[j] == bdv[j]);
                    } else if j < rdv0.len() {
                        assert(r.deep_view()[j] == rdv0[j]);
                        assert(rdv0[j] == m0[j - bdv.len()]);
                        assert(m1[j - bdv.len()] == m0[j - bdv.len()]);
                    } else {
                        assert(j == rdv0.len());
                        assert(r.deep_view()[j] == gs@);
                        assert(m1[j - bdv.len()] == spec_geminate(bdv[k as int]));
                    }
                }
                assert(r.deep_view() =~= bdv + m1);
            }
        } else {
            proof {
                reveal(Seq::filter);
                assert(!spec_ends_tsu(bdv[k as int]));
                assert(!ends_tsu_fn()(bdv[k as int]));
                let f0 = bdv.take(k as int).filter(ends_tsu_fn());
                let f1 = bdv.take(k + 1 as int).filter(ends_tsu_fn());
                assert(f1 == f0);
                assert(r.deep_view() =~= bdv + f1.map_values(geminate_fn()));
            }
        }
        k = k + 1;
    }
    proof {
        reveal(Seq::filter);
        assert(bdv.take(bdv.len() as int) =~= bdv);
    }
    r
}

/// Looks the character up in the reading table and expands its raw reading
/// fields into the full ordered candidate list; `None` when the table has no
/// record for it.
pub fn get_readings_for_kanji(c: char, kanjidic: &Kanjidic2) -> (r: Option<Vec<String>>)
    ensures
        match first_index_where(kanjidic.spec_entries(), literal_matches(seq![c])) {
            Some(i) => r matches Some(v) && v.deep_view() == spec_expand_readings(
                kanjidic.spec_entries()[i].ja_kun@,
                kanjidic.spec_entries()[i].ja_on@,
            ),
            None => r is None,
        },
{
    let key_chars: Vec<char> = vec![c];
    let key = chars_to_string(&key_chars);
    proof {
        assert(key@ =~= seq![c]);
    }
    match kanjidic.find_by_kanji(&key) {
        Some(entry) => {
            let mut base = kun_fragments(&entry.ja_kun);
            let mut on = on_fragments(&entry.ja_on);
            let ghost kv = spec_kun_variants(entry.ja_kun@);
            let ghost ov = spec_on_variants(entry.ja_on@);
            base.append(&mut on);
            proof {
                assert(base.deep_view() =~= kv + ov);
            }
            let expanded = append_gemination(base);
            proof {
                assert(expanded.deep_view() == spec_expand_readings(
                    entry.ja_kun@,
                    entry.ja_on@,
                ));
            }
            Some(expanded)
        },
        None => None,
    }
}

/// The voiced (dakuten) counterpart of an unvoiced syllable, for the
/// consonant rows that have one; every other character passes through.
pub open spec fn spec_dakuten(c: char) -> char {
    if c == 'か' {
        'が'
    } else if c == 'き' {
        'ぎ'
    } else if c == 'く' {
        'ぐ'
    } else if c == 'け' {
        'げ'
    } else if c == 'こ' {
        'ご'
    } else if c == 'さ' {
        'ざ'
    } else if c == 'し' {
        'じ'
    } else if c == 'す' {
        'ず'
    } else if c == 'せ' {
        'ぜ'
    } else if c == 'そ' {
        'ぞ'
    } else if c == 'た' {
        'だ'
    } else if c == 'ち' {
        'ぢ'
    } else if c == 'つ' {
        'づ'
    } else if c == 'て' {
        'で'
    } else if c == 'と' {
        'ど'
    } else if c == 'は' {
        'ば'
    } else if c == 'ひ' {
        'び'
    } else if c == 'ふ' {
        'ぶ'
    } else if c == 'へ' {
        'べ'
    } else if c == 'ほ' {
        'ぼ'
    } else {
        c
    }
}

/// Voices a single syllable, per `spec_dakuten`.
pub fn transform_to_dakuten(c: &char) -> (r: char)
    ensures
        r == spec_dakuten(*c),
{
    match *c {
        'か' => 'が',
        'き' => 'ぎ',
        'く' => 'ぐ',
        'け' => 'げ',
        'こ' => 'ご',
        'さ' => 'ざ',
        'し' => 'じ',
        'す' => 'ず',
        'せ' => 'ぜ',
        'そ' => 'ぞ',
        'た' => 'だ',
        'ち' => 'ぢ',
        'つ' => 'づ',
        'て' => 'で',
        'と' => 'ど',
        'は' => 'ば',
        'ひ' => 'び',
        'ふ' => 'ぶ',
        'へ' => 'べ',
        'ほ' => 'ぼ',
        _ => *c,
    }
}

/// A reading with its first syllable voiced (rendaku), where a voiced
/// counterpart exists; the empty reading stays empty.
pub open spec fn spec_voice_first(s: Seq<char>) -> Seq<char> {
    if s.len() == 0 {
        s
    } else {
        seq![spec_dakuten(s[0])] + s.drop_first()
    }
}

/// Voices the first syllable of a reading, per `spec_voice_first`.
pub fn transform_first_to_dakuten(s: &String) -> (r: String)
    ensures
        r@ == spec_voice_first(s@),
{
    let cs = str_to_chars(s.as_str());
    let mut v: Vec<char> = Vec::new();
    if cs.len() == 0 {
        proof {
            assert(v@ =~= spec_voice_first(s@));
        }
        return chars_to_string(&v);
    }
    v.push(transform_to_dakuten(&cs[0]));
    let mut i: usize = 1;
    while i < cs.len()
        invariant
            1 <= i <= cs@.len(),
            cs@ == s@,
            v@ == seq![spec_dakuten(s@[0])] + s@.subrange(1, i as int),
        decreases cs@.len() - i,
    {
        v.push(cs[i]);
        proof {
            assert(v@ =~= seq![spec_dakuten(s@[0])] + s@.subrange(1, i + 1 as int));
        }
        i = i + 1;
    }
    proof {
        assert(s@.subrange(1, s@.len() as int) =~= s@.drop_first());
        assert(v@ =~= spec_voice_first(s@));
    }
    chars_to_string(&v)
}

/// The candidate list of a repetition mark, derived from the list of the
/// preceding character: for every reading, its voiced variant first, then the
/// reading unchanged.
pub open spec fn spec_repetition_variants(rs: Seq<Seq<char>>) -> Seq<Seq<char>>
    decreases rs.len(),
{
    if rs.len() == 0 {
        Seq::empty()
    } else {
        spec_repetition_variants(rs.drop_last()) + seq![spec_voice_first(rs.last()), rs.last()]
    }
}

/// Derives the repetition-mark candidates, per `spec_repetition_variants`.
pub fn repetition_variants(readings: &Vec<String>) -> (r: Vec<String>)
    ensures
        r.deep_view() == spec_repetition_variants(readings.deep_view()),
{
    let ghost rdv = readings.deep_view();
    let mut r: Vec<String> = Vec::new();
    let mut k: usize = 0;
    proof {
        assert(r.deep_view() =~= spec_repetition_variants(rdv.take(0)));
    }
    while k < readings.len()
        invariant
            k <= readings@.len(),
            rdv == readings.deep_view(),
            rdv.len() == readings@.len(),
            r.deep_view() == spec_repetition_variants(rdv.take(k as int)),
        decreases readings@.len() - k,
    {
        let ghost rdv0 = r.deep_view();
        let voiced = transform_first_to_dakuten(&readings[k]);
        let plain = readings[k].clone();
        r.push(voiced);
        r.push(plain);
        proof {
            assert(rdv.take(k + 1 as int).drop_last() =~= rdv.take(k as int));
            assert(rdv.take(k + 1 as int).last() == rdv[k as int]);
            assert(rdv[k as int] == readings@[k as int]@);
            assert(spec_repetition_variants(rdv.take(k + 1 as int))
                == spec_repetition_variants(rdv.take(k as int)) + seq![
                spec_voice_first(rdv[k as int]),
                rdv[k as int],
            ]);
            assert(r.deep_view().len() == rdv0.len() + 2);
            assert(forall|j: int| 0 <= j < rdv0.len() ==> r.deep_view()[j] == rdv0[j]);
            assert(r.deep_view()[rdv0.len() as int] == spec_voice_first(rdv[k as int]));
            assert(r.deep_view()[rdv0.len() as int + 1] == rdv[k as int]);
            assert(r.deep_view() =~= spec_repetition_variants(rdv.take(k + 1 as int)));
        }
        k = k + 1;
    }
    proof {
        assert(rdv.take(rdv.len() as int) =~= rdv);
    }
    r
}

/// One slot of the candidate map: a character of the scanned word and its
/// ordered candidate readings.
pub struct CandidateEntry {
    pub key: char,
    pub readings: Vec<String>,
}

/// The pair a slot stands for, at the specification level.
pub open spec fn entry_pair() -> spec_fn(CandidateEntry) -> (char, Seq<Seq<char>>) {
    |e: CandidateEntry| (e.key, e.readings.deep_view())
}

/// The predicate of a key scan.
pub open spec fn key_is(key: char) -> spec_fn((char, Seq<Seq<char>>)) -> bool {
    |p: (char, Seq<Seq<char>>)| p.0 == key
}

/// No two slots share a key.
pub open spec fn spec_keys_unique(m: Seq<(char, Seq<Seq<char>>)>) -> bool {
    forall|i: int, j: int| 0 <= i < j < m.len() ==> m[i].0 != m[j].0
}

/// The candidate list recorded for `key`, if any.
pub open spec fn spec_map_get(m: Seq<(char, Seq<Seq<char>>)>, key: char) -> Option<
    Seq<Seq<char>>,
> {
    match first_index_where(m, key_is(key)) {
        Some(i) => Some(m[i].1),
        None => None,
    }
}

/// `m` with `key` bound to `val`: the slot of an existing key is replaced in
/// place, a new key is appended.
pub open spec fn spec_upsert(
    m: Seq<(char, Seq<Seq<char>>)>,
    key: char,
    val: Seq<Seq<char>>,
) -> Seq<(char, Seq<Seq<char>>)> {
    match first_index_where(m, key_is(key)) {
        Some(i) => m.update(i, (key, val)),
        None => m.push((key, val)),
    }
}

/// The per-word candidate map: each scanned logographic character (and a
/// repetition mark that follows one) keyed to its ordered candidate readings.
/// Scoped to one resolution call; never persisted.
pub struct ReadingCandidateMap {
    entries: Vec<CandidateEntry>,
}

impl ReadingCandidateMap {
    /// The key/readings pairs the map holds, in insertion order.
    pub closed spec fn spec_pairs(&self) -> Seq<(char, Seq<Seq<char>>)> {
        self.entries@.map_values(entry_pair())
    }

    /// Each key appears in at most one slot.
    pub open spec fn wf(&self) -> bool {
        spec_keys_unique(self.spec_pairs())
    }

    /// The empty map.
    pub fn new() -> (r: Self)
        ensures
            r.spec_pairs() == Seq::<(char, Seq<Seq<char>>)>::empty(),
            r.wf(),
    {
        let r = ReadingCandidateMap { entries: Vec::new() };
        proof {
            assert(r.spec_pairs() =~= Seq::<(char, Seq<Seq<char>>)>::empty());
        }
        r
    }

    /// How many characters have recorded candidates.
    pub fn len(&self) -> (r: usize)
        ensures
            r == self.spec_pairs().len(),
    {
        self.entries.len()
    }

    /// The slots themselves, for callers that walk the whole map.
    pub fn all_entries(&self) -> (r: &Vec<CandidateEntry>)
        ensures
            r@.map_values(entry_pair()) == self.spec_pairs(),
    {
        &self.entries
    }

    /// The recorded candidate list of `key`, if one was inserted.
    pub fn get(&self, key: char) -> (r: Option<&Vec<String>>)
        ensures
            match r {
                Some(v) => spec_map_get(self.spec_pairs(), key) == Some(v.deep_view()),
                None => spec_map_get(self.spec_pairs(), key) is None,
            },
    {
        let ghost m = self.spec_pairs();
        let mut k: usize = 0;
        while k < self.entries.len()
            invariant
                k <= self.entries@.len(),
                m == self.spec_pairs(),
                m.len() == self.entries@.len(),
                forall|j: int| 0 <= j < k ==> !#[trigger] key_is(key)(m[j]),
            decreases self.entries@.len() - k,
        {
            if self.entries[k].key == key {
                proof {
                    assert(m[k as int] == entry_pair()(self.entries@[k as int]));
                    assert(key_is(key)(m[k as int]));
                    lemma_first_index_where_is(m, key_is(key), Some(k as int));
                    assert(m[k as int].1 == self.entries@[k as int].readings.deep_view());
                }
                return Some(&self.entries[k].readings);
            }
            proof {
                assert(m[k as int] == entry_pair()(self.entries@[k as int]));
                assert(!key_is(key)(m[k as int]));
            }
            k = k + 1;
        }
        proof {
            lemma_first_index_where_is(m, key_is(key), None);
        }
        None
    }

    /// Binds `key` to `readings`: replaces the slot of an existing key in
    /// place, appends a slot for a new one. Keys stay unique.
    pub fn insert(&mut self, key: char, readings: Vec<String>)
        ensures
            final(self).spec_pairs() == spec_upsert(
                old(self).spec_pairs(),
                key,
                readings.deep_view(),
            ),
            old(self).wf() ==> final(self).wf(),
    {
        let ghost m = self.spec_pairs();
        let ghost val = readings.deep_view();
        let mut k: usize = 0;
        while k < self.entries.len()
            invariant_except_break
                k <= self.entries@.len(),
                m == self.spec_pairs(),
                m.len() == self.entries@.len(),
                forall|j: int| 0 <= j < k ==> !#[trigger] key_is(key)(m[j]),
            ensures
                *self == *old(self),
                m == self.spec_pairs(),
                m.len() == self.entries@.len(),
                k <= self.entries@.len(),
                forall|j: int| 0 <= j < k ==> !#[trigger] key_is(key)(m[j]),
                k < self.entries@.len() ==> key_is(key)(m[k as int]),
            decreases self.entries@.len() - k,
        {
            proof {
                assert(m[k as int] == entry_pair()(self.entries@[k as int]));
            }
            if self.entries[k].key == key {
                break;
            }
            k = k + 1;
        }
        if k < self.entries.len() {
            proof {
                lemma_first_index_where_is(m, key_is(key), Some(k as int));
            }
            let ghost old_keys_unique = spec_keys_unique(m);
            self.entries.set(k, CandidateEntry { key, readings });
            proof {
                assert(self.spec_pairs() =~= m.update(k as int, (key, val)));
                if old_keys_unique {
                    let m2 = self.spec_pairs();
                    assert(m[k as int].0 == key);
                    assert(forall|j: int| 0 <= j < m2.len() ==> m2[j].0 == m[j].0);
                    assert(spec_keys_unique(m2));
                }
            }
        } else {
            proof {
                lemma_first_index_where_is(m, key_is(key), None);
            }
            self.entries.push(CandidateEntry { key, readings });
            proof {
                assert(self.spec_pairs() =~= m.push((key, val)));
                if spec_keys_unique(m) {
                    let m2 = self.spec_pairs();
                    assert forall|j: int| 0 <= j < m.len() implies m[j].0 != key by {
                        assert(!key_is(key)(m[j]));
                    }
                    assert(spec_keys_unique(m2));
                }
            }
        }
    }
}

/// What the reading source yields for a character, already expanded: the
/// first record with that literal, or nothing.
pub open spec fn spec_lookup_expanded(entries: Seq<Kanjidic2Entry>, c: char) -> Option<
    Seq<Seq<char>>,
> {
    match first_index_where(entries, literal_matches(seq![c])) {
        Some(i) => Some(spec_expand_readings(entries[i].ja_kun@, entries[i].ja_on@)),
        None => None,
    }
}

/// One step of the left-to-right scan: the state is the last logographic
/// character seen and the map built so far.
///
/// A logographic character with a record gets its expanded candidates and
/// becomes the remembered character; one without a record changes nothing. A
/// repetition mark derives its candidates from the remembered character's
/// list, voiced variants first. Any other character clears the memory.
pub open spec fn spec_scan_step(
    prev: Option<char>,
    m: Seq<(char, Seq<Seq<char>>)>,
    c: char,
    entries: Seq<Kanjidic2Entry>,
) -> (Option<char>, Seq<(char, Seq<Seq<char>>)>) {
    if spec_is_logographic(c) {
        match spec_lookup_expanded(entries, c) {
            Some(rs) => (Some(c), spec_upsert(m, c, rs)),
            None => (prev, m),
        }
    } else if c == REPETITION_MARK {
        match prev {
            Some(p) => match spec_map_get(m, p) {
                Some(rs) => (
                    prev,
                    spec_upsert(m, REPETITION_MARK, spec_repetition_variants(rs)),
                ),
                None => (prev, m),
            },
            None => (prev, m),
        }
    } else {
        (None::<char>, m)
    }
}

/// The full scan of a word against a reading source, folded left to right.
pub open spec fn spec_scan(chars: Seq<char>, entries: Seq<Kanjidic2Entry>) -> (
    Option<char>,
    Seq<(char, Seq<Seq<char>>)>,
)
    decreases chars.len(),
{
    if chars.len() == 0 {
        (None::<char>, Seq::empty())
    } else {
        let st = spec_scan(chars.drop_last(), entries);
        spec_scan_step(st.0, st.1, chars.last(), entries)
    }
}

/// Walks the word character by character and builds its candidate map, per
/// `spec_scan`. The scan never fails: characters without a record are skipped
/// silently, and a word with no resolvable character yields an empty map.
pub fn build_candidate_map(word: &String, kanjidic: &Kanjidic2) -> (r: ReadingCandidateMap)
    ensures
        r.wf(),
        r.spec_pairs() == spec_scan(word@, kanjidic.spec_entries()).1,
{
    let ghost ents = kanjidic.spec_entries();
    let cs = str_to_chars(word.as_str());
    let mut map = ReadingCandidateMap::new();
    let mut prev: Option<char> = None;
    let mut i: usize = 0;
    proof {
        assert(cs@.take(0) =~= Seq::<char>::empty());
    }
    while i < cs.len()
        invariant
            i <= cs@.len(),
            cs@ == word@,
            ents == kanjidic.spec_entries(),
            map.wf(),
            prev == spec_scan(cs@.take(i as int), ents).0,
            map.spec_pairs() == spec_scan(cs@.take(i as int), ents).1,
        decreases cs@.len() - i,
    {
        let c = cs[i];
        let ghost st = spec_scan(cs@.take(i as int), ents);
        proof {
            assert(cs@.take(i + 1 as int).drop_last() =~= cs@.take(i as int));
            assert(cs@.take(i + 1 as int).last() == cs@[i as int]);
            assert(spec_scan(cs@.take(i + 1 as int), ents) == spec_scan_step(
                st.0,
                st.1,
                cs@[i as int],
                ents,
            ));
        }
        if is_logographic(c) {
            match get_readings_for_kanji(c, kanjidic) {
                Some(readings) => {
                    map.insert(c, readings);
                    prev = Some(c);
                },
                None => {},
            }
        } else if c == REPETITION_MARK {
            let derived: Option<Vec<String>> = match prev {
                Some(p) => match map.get(p) {
                    Some(rv) => Some(repetition_variants(rv)),
                    None => None,
                },
                None => None,
            };
            match derived {
                Some(vars) => {
                    map.insert(REPETITION_MARK, vars);
                },
                None => {},
            }
        } else {
            prev = None;
        }
        i = i + 1;
    }
    proof {
        assert(cs@.take(cs@.len() as int) =~= cs@);
    }
    map
}

/// The prepared input of the external furigana alignment solver: the word,
/// its target reading, and the per-character candidate map. The solver — an
/// external collaborator — partitions the word into (span, reading) pairs or
/// fails; the engine only assembles this structure.
pub struct AlignmentRequest {
    pub word: String,
    pub reading: String,
    pub candidates: ReadingCandidateMap,
}

/// Prepares the alignment of a word: rejects the empty word, derives the
/// target reading (the given one, or the tokenizer's hiragana conversion
/// when none is given), and builds the candidate map by scanning the word
/// against the reading table.
pub fn parse_word(word: &String, reading: Option<String>, kanjidic: &Kanjidic2) -> (r: Result<
    AlignmentRequest,
    LookupError,
>)
    ensures
        word@.len() == 0 ==> r == Err::<AlignmentRequest, LookupError>(LookupError::EmptyInput),
        word@.len() > 0 ==> match r {
            Ok(a) => {
                &&& a.word@ == word@
                &&& a.candidates.wf()
                &&& a.candidates.spec_pairs() == spec_scan(word@, kanjidic.spec_entries()).1
                &&& match reading {
                    Some(rd) => a.reading@ == rd@,
                    None => a.reading@ == spec_hiragana_of_tokens(tokenization(word@)),
                }
            },
            Err(e) => e == LookupError::ReadingNotProvided && reading is None,
        },
{
    if word.as_str().is_empty() {
        return Err(LookupError::EmptyInput);
    }
    let rd: String = match reading {
        Some(rd) => rd,
        None => match convert(word) {
            Ok(h) => h,
            Err(_) => {
                return Err(LookupError::ReadingNotProvided);
            },
        },
    };
    let candidates = build_candidate_map(word, kanjidic);
    Ok(AlignmentRequest { word: word.clone(), reading: rd, candidates })
}

/// One annotated segment: a logographic character with its assigned
/// reading, or a literal character carrying no annotation. Produced by the
/// external alignment solver; the engine renders it.
pub enum Furigana {
    Kanji { character: char, reading: String },
    Other(char),
}

/// An annotated text: a list of segments.
pub struct FuriganaString(pub Vec<Furigana>);

/// The ruby markup of one segment.
pub open spec fn spec_segment_html(f: Furigana) -> Seq<char> {
    match f {
        Furigana::Kanji { character, reading } => "<ruby><rb>"@ + seq![character] + "</rb><rt>"@
            + reading@ + "</rt></ruby>"@,
        Furigana::Other(c) => seq![c],
    }
}

/// The ruby markup of an annotated text, segment by segment.
pub open spec fn spec_to_html(s: Seq<Furigana>) -> Seq<char>
    decreases s.len(),
{
    if s.len() == 0 {
        Seq::empty()
    } else {
        spec_to_html(s.drop_last()) + spec_segment_html(s.last())
    }
}

impl FuriganaString {
    /// Renders the annotated text as ruby markup, per `spec_to_html`.
    pub fn to_html(&self) -> (r: String)
        ensures
            r@ == spec_to_html(self.0@),
    {
        let mut r = String::new();
        let mut i: usize = 0;
        while i < self.0.len()
            invariant
                i <= self.0@.len(),
                r@ == spec_to_html(self.0@.take(i as int)),
            decreases self.0@.len() - i,
        {
            proof {
                assert(self.0@.take(i + 1 as int).drop_last() =~= self.0@.take(i as int));
                assert(self.0@.take(i + 1 as int).last() == self.0@[i as int]);
            }
            match &self.0[i] {
                Furigana::Kanji { character, reading } => {
                    r.append("<ruby><rb>");
                    r.push(*character);
                    r.append("</rb><rt>");
                    r.append(reading.as_str());
                    r.append("</rt></ruby>");
                },
                Furigana::Other(c) => {
                    r.push(*c);
                },
            }
            i = i + 1;
        }
        proof {
            assert(self.0@.take(self.0@.len() as int) =~= self.0@);
        }
        r
    }
}

} // verus!
