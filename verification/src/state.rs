//! Name corpora: the gender annotation of a first name, parsing a corpus file
//! into records, picking a language's records (or the merged, de-duplicated
//! list of all languages), and the onset-bucketed index that a query scans.

use std::collections::HashMap;

use vstd::prelude::*;
use vstd::std_specs::iter::IteratorSpec;

use crate::calib::Analyzed;
use crate::text::{
    ascii_lower, chars_eq, chars_of, lemma_lex_irreflexive, lemma_lex_total,
    lemma_lex_transitive, lex_lt, parse_u32, spec_ascii_lower, spec_lex_lt, spec_parse_u32,
    spec_split, spec_trim, split_on, string_of, trim,
};

verus! {

/// Grammatical gender of a first name, from the corpus annotation.
#[derive(Clone, Copy, PartialEq, Eq, Structural, Debug)]
pub enum Gender {
    Male,
    Female,
    Unisex,
}

/// The gender a corpus tag denotes: the first character of the trimmed tag,
/// ASCII-lowercased, `m` for male, `f` for female, anything else unisex.
pub open spec fn spec_parse_gender(s: Seq<char>) -> Gender {
    let t = spec_trim(s);
    if t.len() > 0 && spec_ascii_lower(t[0]) == 0x6D {
        Gender::Male
    } else if t.len() > 0 && spec_ascii_lower(t[0]) == 0x66 {
        Gender::Female
    } else {
        Gender::Unisex
    }
}

/// The one-letter code of a gender.
pub open spec fn spec_gender_code(g: Gender) -> Seq<char> {
    match g {
        Gender::Male => seq!['m'],
        Gender::Female => seq!['f'],
        Gender::Unisex => seq!['u'],
    }
}

/// Whether a candidate of gender `g` passes the filter `filter`: unisex names
/// pass a male or a female filter, and a unisex filter admits only unisex.
pub open spec fn spec_passes(g: Gender, filter: Gender) -> bool {
    match filter {
        Gender::Male => g == Gender::Male || g == Gender::Unisex,
        Gender::Female => g == Gender::Female || g == Gender::Unisex,
        Gender::Unisex => g == Gender::Unisex,
    }
}

/// The gender that the tag `s` denotes.
fn gender_of_chars(s: &[char]) -> (r: Gender)
    ensures
        r == spec_parse_gender(s@),
{
    let t = trim(s);
    if t.len() > 0 {
        let c = ascii_lower(t[0]);
        if c == 0x6D {
            return Gender::Male;
        } else if c == 0x66 {
            return Gender::Female;
        }
    }
    Gender::Unisex
}

impl Gender {
    /// Parses a corpus tag (`m`/`f`/anything else is unisex).
    pub fn parse(s: &str) -> (r: Gender)
        ensures
            r == spec_parse_gender(s@),
    {
        let cs = chars_of(s);
        gender_of_chars(cs.as_slice())
    }

    /// The one-letter code (`m`, `f` or `u`).
    pub fn code(self) -> (r: &'static str)
        ensures
            r@ == spec_gender_code(self),
    {
        match self {
            Gender::Male => {
                proof {
                    reveal_strlit("m");
                }
                "m"
            },
            Gender::Female => {
                proof {
                    reveal_strlit("f");
                }
                "f"
            },
            Gender::Unisex => {
                proof {
                    reveal_strlit("u");
                }
                "u"
            },
        }
    }

    /// Whether a candidate of this gender passes a requested `filter`.
    /// Unisex names pass a male or female filter (usable for either).
    pub fn passes(self, filter: Gender) -> (r: bool)
        ensures
            r == spec_passes(self, filter),
    {
        match filter {
            Gender::Male => self == Gender::Male || self == Gender::Unisex,
            Gender::Female => self == Gender::Female || self == Gender::Unisex,
            Gender::Unisex => self == Gender::Unisex,
        }
    }
}

/// Parsing a gender's own code gives that gender back.
pub proof fn lemma_gender_code_roundtrip(g: Gender)
    ensures
        spec_parse_gender(spec_gender_code(g)) == g,
{
    let c = spec_gender_code(g);
    assert(c.len() == 1);
    assert(!crate::text::spec_is_whitespace(c[0]));
    assert(c.drop_last() == Seq::<char>::empty());
    assert(crate::text::spec_trim_start(c) == c);
    assert(crate::text::spec_trim_end(c) == c);
}

/// Every gender passes its own filter; a unisex name passes every filter; a
/// male name never passes a female filter nor a female name a male one; and
/// only unisex names pass the unisex filter.
pub proof fn lemma_gender_filter(g: Gender)
    ensures
        spec_passes(g, g),
        spec_passes(Gender::Unisex, g),
        !spec_passes(Gender::Male, Gender::Female),
        !spec_passes(Gender::Female, Gender::Male),
        spec_passes(g, Gender::Unisex) == (g == Gender::Unisex),
{
}

// ---------------------------------------------------------------------------
// Corpus records
// ---------------------------------------------------------------------------

/// One corpus line: a name, its gender, its census frequency, and optionally a
/// precomputed IPA transcription.
pub struct NameRecord {
    pub name: String,
    pub gender: Gender,
    pub freq: u32,
    pub ipa: Option<String>,
}

/// The abstract content of a [`NameRecord`].
pub struct NameRecordView {
    pub name: Seq<char>,
    pub gender: Gender,
    pub freq: u32,
    pub ipa: Option<Seq<char>>,
}

/// The characters of an optional string.
pub open spec fn opt_view(o: Option<String>) -> Option<Seq<char>> {
    match o {
        Some(s) => Some(s@),
        None => None,
    }
}

impl View for NameRecord {
    type V = NameRecordView;

    open spec fn view(&self) -> NameRecordView {
        NameRecordView {
            name: self.name@,
            gender: self.gender,
            freq: self.freq,
            ipa: opt_view(self.ipa),
        }
    }
}

impl NameRecord {
    /// A copy of this record.
    pub fn duplicate(&self) -> (r: NameRecord)
        ensures
            r@ == self@,
    {
        NameRecord {
            name: self.name.clone(),
            gender: self.gender,
            freq: self.freq,
            ipa: match &self.ipa {
                Some(s) => Some(s.clone()),
                None => None,
            },
        }
    }
}

/// The views of a sequence of records.
pub open spec fn records_view(v: Seq<NameRecord>) -> Seq<NameRecordView> {
    v.map_values(|r: NameRecord| r@)
}

/// The record that a trimmed, non-comment line `l` denotes. The line is split
/// at tabs: the first field (trimmed) is the name, the second the gender tag
/// (unisex when absent), the third the frequency (`0` when absent or not a
/// valid `u32` after trimming), the fourth the IPA (absent when missing or
/// blank).
pub open spec fn spec_parse_line(l: Seq<char>) -> NameRecordView {
    let parts = spec_split(l, '\t');
    NameRecordView {
        name: spec_trim(parts[0]),
        gender: if parts.len() > 1 {
            spec_parse_gender(parts[1])
        } else {
            Gender::Unisex
        },
        freq: if parts.len() > 2 {
            match spec_parse_u32(spec_trim(parts[2])) {
                Some(v) => v,
                None => 0,
            }
        } else {
            0
        },
        ipa: if parts.len() > 3 && spec_trim(parts[3]).len() > 0 {
            Some(spec_trim(parts[3]))
        } else {
            None
        },
    }
}

/// The name of a record is the trimmed text before the line's first tab, or
/// the whole trimmed line when it has no tab: spaces inside a name (`Mary
/// Ann`, `De Luca`) stay in it.
pub proof fn lemma_line_name_before_tab(n: Seq<char>, rest: Seq<char>)
    requires
        !n.contains('\t'),
    ensures
        spec_parse_line(n + seq!['\t'] + rest).name == spec_trim(n),
        spec_parse_line(n).name == spec_trim(n),
{
    crate::text::lemma_split_first_piece_before_sep(n, '\t', rest);
    crate::text::lemma_split_no_sep(n, '\t');
}

/// A trimmed line carries a record unless it is empty or a `#` comment.
pub open spec fn spec_keeps_line(l: Seq<char>) -> bool {
    l.len() > 0 && l[0] != '#'
}

/// The records of a sequence of raw lines: each line is trimmed, blank lines
/// and `#` comments are skipped, the others parsed in order.
pub open spec fn spec_parse_lines(lines: Seq<Seq<char>>) -> Seq<NameRecordView>
    decreases lines.len(),
{
    if lines.len() == 0 {
        Seq::empty()
    } else {
        let r = spec_parse_lines(lines.drop_last());
        let l = spec_trim(lines.last());
        if spec_keeps_line(l) {
            r.push(spec_parse_line(l))
        } else {
            r
        }
    }
}

/// The records of a corpus file's text. Lines are split at `\n`; a `\r`
/// before it is whitespace and trimmed away with the rest, and a final empty
/// line is blank, so this reads the same lines as `str::lines`.
pub open spec fn spec_parse_corpus(content: Seq<char>) -> Seq<NameRecordView> {
    spec_parse_lines(spec_split(content, '\n'))
}

/// The element of a split vector at `i`, copied.
fn piece(parts: &Vec<Vec<char>>, i: usize) -> (r: &Vec<char>)
    requires
        i < parts.len(),
    ensures
        r@ == parts.deep_view()[i as int],
{
    proof {
        crate::text::lemma_char_vec_deep_view(parts[i as int]);
    }
    &parts[i]
}

/// The record of a kept line has a non-empty name.
proof fn lemma_line_name_nonempty(l: Seq<char>)
    requires
        spec_keeps_line(l),
        !crate::text::spec_is_whitespace(l[0]),
    ensures
        spec_parse_line(l).name.len() > 0,
{
    let parts = spec_split(l, '\t');
    assert(crate::text::spec_is_whitespace('\t'));
    crate::text::lemma_split_first_piece(l, '\t');
    crate::text::lemma_trim_keeps_nonblank_start(parts[0]);
}

/// Every record parsed from a corpus file has a non-empty name.
pub proof fn lemma_parsed_names_nonempty(content: Seq<char>)
    ensures
        forall|i: int|
            0 <= i < spec_parse_corpus(content).len() ==> (#[trigger] spec_parse_corpus(
                content,
            )[i]).name.len() > 0,
{
    lemma_parsed_lines_names_nonempty(spec_split(content, '\n'));
}

proof fn lemma_parsed_lines_names_nonempty(lines: Seq<Seq<char>>)
    ensures
        forall|i: int|
            0 <= i < spec_parse_lines(lines).len() ==> (#[trigger] spec_parse_lines(
                lines,
            )[i]).name.len() > 0,
    decreases lines.len(),
{
    if lines.len() > 0 {
        lemma_parsed_lines_names_nonempty(lines.drop_last());
        let l = spec_trim(lines.last());
        if spec_keeps_line(l) {
            crate::text::lemma_trim_first_not_whitespace(lines.last());
            lemma_line_name_nonempty(l);
        }
    }
}

/// Parses one trimmed, non-comment line into a record.
fn parse_line(l: &[char]) -> (r: NameRecord)
    ensures
        r@ == spec_parse_line(l@),
{
    let parts = split_on(l, '\t');
    proof {
        crate::text::lemma_split_nonempty(l@, '\t');
    }
    let name_chars = trim(piece(&parts, 0).as_slice());
    let name = string_of(name_chars.as_slice());
    let gender = if parts.len() > 1 {
        gender_of_chars(piece(&parts, 1).as_slice())
    } else {
        Gender::Unisex
    };
    let freq = if parts.len() > 2 {
        let f = trim(piece(&parts, 2).as_slice());
        match parse_u32(f.as_slice()) {
            Some(v) => v,
            None => 0,
        }
    } else {
        0
    };
    let ipa = if parts.len() > 3 {
        let t = trim(piece(&parts, 3).as_slice());
        if t.len() > 0 {
            Some(string_of(t.as_slice()))
        } else {
            None
        }
    } else {
        None
    };
    NameRecord { name, gender, freq, ipa }
}

/// Parses a corpus file: one record per non-blank, non-`#` line, each
/// `name` optionally followed by TAB `gender`, TAB `frequency` and TAB `ipa`.
pub fn parse_corpus(content: &str) -> (r: Vec<NameRecord>)
    ensures
        records_view(r@) == spec_parse_corpus(content@),
{
    let cs = chars_of(content);
    let lines = split_on(cs.as_slice(), '\n');
    let ghost lv = lines.deep_view();
    let mut r: Vec<NameRecord> = Vec::new();
    let n = lines.len();
    assert(lv.take(0) == Seq::<Seq<char>>::empty());
    for i in 0..n
        invariant
            n == lv.len(),
            lv == lines.deep_view(),
            records_view(r@) == spec_parse_lines(lv.take(i as int)),
    {
        let line = piece(&lines, i);
        let l = trim(line.as_slice());
        assert(lv.take(i + 1).drop_last() == lv.take(i as int));
        assert(lv.take(i + 1).last() == line@);
        if l.len() > 0 && l[0] != '#' {
            let rec = parse_line(l.as_slice());
            let ghost before = records_view(r@);
            r.push(rec);
            assert(records_view(r@) =~= before.push(rec@));
        }
    }
    assert(lv.take(n as int) == lv);
    r
}

// ---------------------------------------------------------------------------
// Picking a language's records
// ---------------------------------------------------------------------------

/// A language's name list.
pub struct NameList {
    /// The language code (the file stem).
    pub lang: String,
    /// Its records, in file order.
    pub entries: Vec<NameRecord>,
}

/// The index of the first list whose language is `lang`, if any.
pub open spec fn spec_find_list(c: Seq<NameList>, lang: Seq<char>) -> Option<int>
    decreases c.len(),
{
    if c.len() == 0 {
        None
    } else {
        match spec_find_list(c.drop_last(), lang) {
            Some(k) => Some(k),
            None => if c.last().lang@ == lang {
                Some(c.len() - 1)
            } else {
                None
            },
        }
    }
}

/// All records of all lists, list after list.
pub open spec fn spec_union(c: Seq<NameList>) -> Seq<NameRecordView>
    decreases c.len(),
{
    if c.len() == 0 {
        Seq::empty()
    } else {
        spec_union(c.drop_last()) + records_view(c.last().entries@)
    }
}

/// The first record of each name, in order of first appearance.
pub open spec fn spec_first_names(u: Seq<NameRecordView>) -> Seq<NameRecordView>
    decreases u.len(),
{
    if u.len() == 0 {
        Seq::empty()
    } else {
        let f = spec_first_names(u.drop_last());
        if exists|j: int| 0 <= j < f.len() && (#[trigger] f[j]).name == u.last().name {
            f
        } else {
            f.push(u.last())
        }
    }
}

/// The names of a sequence of records.
pub open spec fn names_of(r: Seq<NameRecordView>) -> Seq<Seq<char>> {
    r.map_values(|x: NameRecordView| x.name)
}

/// Strictly increasing, so also free of duplicates.
pub open spec fn spec_strictly_sorted(k: Seq<Seq<char>>) -> bool {
    forall|i: int, j: int| 0 <= i < j < k.len() ==> spec_lex_lt(#[trigger] k[i], #[trigger] k[j])
}

proof fn lemma_insert_sorted(k: Seq<Seq<char>>, pos: int, key: Seq<char>)
    requires
        0 <= pos <= k.len(),
        spec_strictly_sorted(k),
        forall|j: int| 0 <= j < pos ==> spec_lex_lt(#[trigger] k[j], key),
        pos < k.len() ==> spec_lex_lt(key, k[pos]),
    ensures
        spec_strictly_sorted(k.insert(pos, key)),
{
    let t = k.insert(pos, key);
    assert forall|i: int, j: int| 0 <= i < j < t.len() implies spec_lex_lt(
        #[trigger] t[i],
        #[trigger] t[j],
    ) by {
        if j < pos {
            assert(t[i] == k[i] && t[j] == k[j]);
        } else if j == pos {
            assert(t[i] == k[i]);
        } else if i < pos {
            assert(t[i] == k[i] && t[j] == k[j - 1]);
            if j - 1 > pos {
                assert(spec_lex_lt(k[pos], k[j - 1]));
                lemma_lex_transitive(key, k[pos], k[j - 1]);
            }
            lemma_lex_transitive(k[i], key, k[j - 1]);
        } else if i == pos {
            assert(t[j] == k[j - 1]);
            if j - 1 > pos {
                assert(spec_lex_lt(k[pos], k[j - 1]));
                lemma_lex_transitive(key, k[pos], k[j - 1]);
            }
        } else {
            assert(t[i] == k[i - 1] && t[j] == k[j - 1]);
        }
    }
}

/// Adds `rec` to the name-sorted `out` unless a record of that name is there.
fn insert_first(out: &mut Vec<NameRecord>, keys: &mut Vec<Vec<char>>, rec: &NameRecord)
    requires
        old(keys).deep_view() == names_of(records_view(old(out)@)),
        spec_strictly_sorted(old(keys).deep_view()),
    ensures
        final(keys).deep_view() == names_of(records_view(final(out)@)),
        spec_strictly_sorted(final(keys).deep_view()),
        if exists|j: int|
            0 <= j < old(out)@.len() && (#[trigger] records_view(old(out)@)[j]).name == rec@.name {
            records_view(final(out)@) == records_view(old(out)@)
        } else {
            records_view(final(out)@).to_set() == records_view(old(out)@).to_set().insert(rec@)
        },
{
    let ghost k0 = keys.deep_view();
    let ghost o0 = records_view(out@);
    let key = chars_of(rec.name.as_str());
    let n = out.len();
    assert(k0.len() == keys@.len());
    assert(names_of(o0).len() == out@.len());
    let mut pos: usize = 0;
    while pos < n && lex_lt(keys[pos].as_slice(), key.as_slice())
        invariant
            pos <= n == keys.len() == out.len(),
            k0 == keys.deep_view(),
            k0 == names_of(o0),
            o0 == records_view(out@),
            forall|j: int| 0 <= j < pos ==> spec_lex_lt(#[trigger] k0[j], key@),
        decreases n - pos,
    {
        proof {
            crate::text::lemma_char_vec_deep_view(keys[pos as int]);
        }
        pos = pos + 1;
    }
    if pos < n {
        proof {
            crate::text::lemma_char_vec_deep_view(keys[pos as int]);
        }
        if chars_eq(keys[pos].as_slice(), key.as_slice()) {
            assert(keys[pos as int]@ == key@);
            assert(k0[pos as int] == names_of(o0)[pos as int]);
            assert(o0[pos as int].name == rec@.name);
            return;
        }
        proof {
            lemma_lex_total(k0[pos as int], key@);
        }
    }
    assert forall|j: int| 0 <= j < o0.len() implies (#[trigger] o0[j]).name != rec@.name by {
        assert(o0[j].name == k0[j]);
        if j < pos {
            lemma_lex_irreflexive(key@);
        } else {
            if j > pos {
                lemma_lex_transitive(key@, k0[pos as int], k0[j]);
            }
            lemma_lex_irreflexive(key@);
        }
    }
    proof {
        lemma_insert_sorted(k0, pos as int, key@);
    }
    let copy = rec.duplicate();
    out.insert(pos, copy);
    proof {
        crate::text::lemma_char_vec_deep_view(key);
    }
    keys.insert(pos, key);
    let ghost o1 = records_view(out@);
    assert(o1 =~= o0.insert(pos as int, rec@));
    assert(keys.deep_view() =~~= k0.insert(pos as int, key@));
    assert(names_of(o1) =~~= k0.insert(pos as int, key@));
    assert(o1.to_set() =~= o0.to_set().insert(rec@)) by {
        assert forall|x: NameRecordView| o1.to_set().contains(x) implies o0.to_set().insert(
            rec@,
        ).contains(x) by {
            let i = choose|i: int| 0 <= i < o1.len() && o1[i] == x;
            if i < pos {
                assert(o0[i] == x);
            } else if i > pos {
                assert(o0[i - 1] == x);
            }
        }
        assert forall|x: NameRecordView| o0.to_set().insert(rec@).contains(x) implies o1.to_set().contains(
            x,
        ) by {
            if x == rec@ {
                assert(o1[pos as int] == x);
            } else {
                let i = choose|i: int| 0 <= i < o0.len() && o0[i] == x;
                if i < pos {
                    assert(o1[i] == x);
                } else {
                    assert(o1[i + 1] == x);
                }
            }
        }
    }
}

/// A copy of every record of `v`.
fn copy_records(v: &Vec<NameRecord>) -> (r: Vec<NameRecord>)
    ensures
        records_view(r@) == records_view(v@),
{
    let mut r: Vec<NameRecord> = Vec::new();
    let n = v.len();
    for i in 0..n
        invariant
            n == v@.len(),
            records_view(r@) == records_view(v@).take(i as int),
    {
        let ghost before = records_view(r@);
        r.push(v[i].duplicate());
        assert(records_view(r@) =~= before.push(v@[i as int]@));
        assert(records_view(v@).take(i + 1) =~= records_view(v@).take(i as int).push(
            v@[i as int]@,
        ));
    }
    assert(records_view(v@).take(n as int) =~= records_view(v@));
    r
}

proof fn lemma_find_prefix(c: Seq<NameList>, lang: Seq<char>, j: int)
    requires
        0 <= j <= c.len(),
    ensures
        spec_find_list(c.take(j), lang) matches Some(i) ==> spec_find_list(c, lang) == Some(i),
    decreases c.len() - j,
{
    if j < c.len() {
        lemma_find_prefix(c, lang, j + 1);
        assert(c.take(j + 1).drop_last() == c.take(j));
    } else {
        assert(c.take(j) == c);
    }
}

proof fn lemma_union_step(c: Seq<NameList>, k: int)
    requires
        0 <= k < c.len(),
    ensures
        spec_union(c.take(k + 1)) == spec_union(c.take(k)) + records_view(c[k].entries@),
{
    assert(c.take(k + 1).drop_last() == c.take(k));
}

proof fn lemma_same_set_same_names(a: Seq<NameRecordView>, b: Seq<NameRecordView>, name: Seq<char>)
    requires
        a.to_set() == b.to_set(),
    ensures
        (exists|j: int| 0 <= j < a.len() && (#[trigger] a[j]).name == name) == (exists|j: int|
            0 <= j < b.len() && (#[trigger] b[j]).name == name),
{
    if exists|j: int| 0 <= j < a.len() && (#[trigger] a[j]).name == name {
        let j = choose|j: int| 0 <= j < a.len() && (#[trigger] a[j]).name == name;
        assert(a.to_set().contains(a[j]));
        let i = choose|i: int| 0 <= i < b.len() && b[i] == a[j];
        assert(b[i].name == name);
    }
    if exists|j: int| 0 <= j < b.len() && (#[trigger] b[j]).name == name {
        let j = choose|j: int| 0 <= j < b.len() && (#[trigger] b[j]).name == name;
        assert(b.to_set().contains(b[j]));
        let i = choose|i: int| 0 <= i < a.len() && a[i] == b[j];
        assert(a[i].name == name);
    }
}

proof fn lemma_push_to_set(a: Seq<NameRecordView>, x: NameRecordView)
    ensures
        a.push(x).to_set() == a.to_set().insert(x),
{
    assert forall|y: NameRecordView| a.push(x).to_set().contains(y) implies a.to_set().insert(
        x,
    ).contains(y) by {
        let i = choose|i: int| 0 <= i < a.push(x).len() && a.push(x)[i] == y;
        if i < a.len() {
            assert(a[i] == y);
        }
    }
    assert forall|y: NameRecordView| a.to_set().insert(x).contains(y) implies a.push(
        x,
    ).to_set().contains(y) by {
        if y == x {
            assert(a.push(x)[a.len() as int] == y);
        } else {
            let i = choose|i: int| 0 <= i < a.len() && a[i] == y;
            assert(a.push(x)[i] == y);
        }
    }
    assert(a.push(x).to_set() =~= a.to_set().insert(x));
}

/// Where `spec_find_list` finds a list, it is the first list of that
/// language: when several lists share a language, the first one wins.
pub proof fn lemma_find_list_first(c: Seq<NameList>, lang: Seq<char>)
    ensures
        match spec_find_list(c, lang) {
            Some(k) => 0 <= k < c.len() && c[k].lang@ == lang && forall|j: int|
                0 <= j < k ==> (#[trigger] c[j]).lang@ != lang,
            None => forall|j: int| 0 <= j < c.len() ==> (#[trigger] c[j]).lang@ != lang,
        },
    decreases c.len(),
{
    if c.len() > 0 {
        let init = c.drop_last();
        lemma_find_list_first(init, lang);
        assert forall|j: int| 0 <= j < init.len() implies init[j] == c[j] by {}
    }
}

/// The record list for `lang` from `corpus`: that language's own list when it
/// has one (the first such list, should two share a language); otherwise the union of all lists, keeping the first record of each
/// name, sorted by name.
pub fn entries_for(corpus: &[NameList], lang: &str) -> (r: Vec<NameRecord>)
    ensures
        match spec_find_list(corpus@, lang@) {
            Some(k) => records_view(r@) == records_view(corpus@[k].entries@),
            None => {
                &&& spec_strictly_sorted(names_of(records_view(r@)))
                &&& records_view(r@).to_set() == spec_first_names(spec_union(corpus@)).to_set()
            },
        },
{
    let m = corpus.len();
    let wanted = chars_of(lang);
    assert(corpus@.take(0) == Seq::<NameList>::empty());
    for k in 0..m
        invariant
            m == corpus@.len(),
            wanted@ == lang@,
            spec_find_list(corpus@.take(k as int), lang@) is None,
    {
        let here = chars_of(corpus[k].lang.as_str());
        assert(corpus@.take(k + 1).drop_last() == corpus@.take(k as int));
        if chars_eq(here.as_slice(), wanted.as_slice()) {
            proof {
                lemma_find_prefix(corpus@, lang@, k + 1);
            }
            return copy_records(&corpus[k].entries);
        }
    }
    assert(corpus@.take(m as int) == corpus@);
    let mut out: Vec<NameRecord> = Vec::new();
    let mut keys: Vec<Vec<char>> = Vec::new();
    assert(out@.len() == 0 ==> records_view(out@) =~= Seq::<NameRecordView>::empty());
    assert(keys.deep_view() =~~= names_of(records_view(out@)));
    for k in 0..m
        invariant
            m == corpus@.len(),
            keys.deep_view() == names_of(records_view(out@)),
            spec_strictly_sorted(keys.deep_view()),
            records_view(out@).to_set() == spec_first_names(spec_union(corpus@.take(k as int))).to_set(),
    {
        let list = &corpus[k].entries;
        let len = list.len();
        let ghost base = spec_union(corpus@.take(k as int));
        assert(records_view(list@).take(0) =~= Seq::<NameRecordView>::empty());
        assert(base + records_view(list@).take(0) =~= base);
        for e in 0..len
            invariant
                len == list@.len(),
                base == spec_union(corpus@.take(k as int)),
                keys.deep_view() == names_of(records_view(out@)),
                spec_strictly_sorted(keys.deep_view()),
                records_view(out@).to_set() == spec_first_names(
                    base + records_view(list@).take(e as int),
                ).to_set(),
        {
            let rec = &list[e];
            let ghost u = base + records_view(list@).take(e as int);
            let ghost u1 = base + records_view(list@).take(e + 1);
            assert(u1 =~= u.push(rec@));
            assert(u1.drop_last() =~= u);
            let ghost f = spec_first_names(u);
            let ghost o = records_view(out@);
            proof {
                lemma_same_set_same_names(o, f, rec@.name);
                lemma_push_to_set(f, rec@);
            }
            insert_first(&mut out, &mut keys, rec);
        }
        proof {
            lemma_union_step(corpus@, k as int);
        }
        assert(records_view(list@).take(len as int) =~= records_view(list@));
    }
    assert(corpus@.take(m as int) == corpus@);
    out
}

// ---------------------------------------------------------------------------
// The onset index
// ---------------------------------------------------------------------------

proof fn lemma_filter_take_snoc<A>(s: Seq<A>, i: int, pred: spec_fn(A) -> bool)
    requires
        0 <= i < s.len(),
    ensures
        s.take(i + 1).filter(pred) == if pred(s[i]) {
            s.take(i).filter(pred).push(s[i])
        } else {
            s.take(i).filter(pred)
        },
{
    reveal(Seq::filter);
    assert(s.take(i + 1).drop_last() == s.take(i));
}

proof fn lemma_filter_none<A>(s: Seq<A>, pred: spec_fn(A) -> bool)
    requires
        forall|i: int| 0 <= i < s.len() ==> !pred(#[trigger] s[i]),
    ensures
        s.filter(pred) == Seq::<A>::empty(),
    decreases s.len(),
{
    reveal(Seq::filter);
    if s.len() > 0 {
        lemma_filter_none(s.drop_last(), pred);
    }
}

/// A corpus first name: its text, gender, census frequency, and precomputed
/// phonetic structure.
pub struct NameEntry {
    pub name: String,
    pub gender: Gender,
    pub freq: u32,
    pub phon: Analyzed,
}

/// The integer that keys an onset's bucket: `0` for no onset, otherwise the
/// onset's code point plus one (code points stop at U+10FFFF, so this never
/// overflows and distinct onsets get distinct keys).
pub open spec fn spec_onset_key(onset: Option<char>) -> u32 {
    match onset {
        Some(c) => (c as u32 + 1) as u32,
        None => 0,
    }
}

/// The bucket key of `onset`.
pub fn onset_key(onset: Option<char>) -> (r: u32)
    ensures
        r == spec_onset_key(onset),
{
    match onset {
        Some(c) => {
            proof {
                vstd::utf8::char_is_scalar(c);
            }
            c as u32 + 1
        },
        None => 0,
    }
}

/// Distinct onsets have distinct keys.
pub proof fn lemma_onset_key_injective(a: Option<char>, b: Option<char>)
    ensures
        spec_onset_key(a) == spec_onset_key(b) ==> a == b,
{
    match (a, b) {
        (Some(x), Some(y)) => {
            vstd::utf8::char_is_scalar(x);
            vstd::utf8::char_is_scalar(y);
            vstd::utf8::char_u32_cast(x, x as u32);
            vstd::utf8::char_u32_cast(y, y as u32);
        },
        (Some(x), None) => {
            vstd::utf8::char_is_scalar(x);
        },
        (None, Some(y)) => {
            vstd::utf8::char_is_scalar(y);
        },
        (None, None) => {},
    }
}

/// The bucket key of an entry.
pub open spec fn entry_key(e: NameEntry) -> u32 {
    spec_onset_key(e.phon.onset_view())
}

/// The bucket of an onset holds exactly the entries with that onset, in
/// the order they were given in.
pub proof fn lemma_bucket_is_onset_filter(entries: Seq<NameEntry>, onset: Option<char>)
    ensures
        NameIndex::spec_bucket_of(entries, spec_onset_key(onset)) == entries.filter(
            |e: NameEntry| e.phon.onset_view() == onset,
        ),
{
    let k = spec_onset_key(onset);
    let p1 = |e: NameEntry| entry_key(e) == k;
    let p2 = |e: NameEntry| e.phon.onset_view() == onset;
    assert forall|e: NameEntry| #[trigger] p1(e) == p2(e) by {
        lemma_onset_key_injective(e.phon.onset_view(), onset);
    }
    assert(p1 =~= p2);
}

/// A language's name corpus, bucketed by onset (first phoneme) so a query only
/// scans candidates sharing its onset instead of the whole corpus. Each bucket
/// is keyed by [`onset_key`] of its onset, and every key is an onset's key.
pub struct NameIndex {
    by_onset: HashMap<u32, Vec<NameEntry>>,
}

/// Every key of `m` is the key of some onset.
pub open spec fn keys_are_onsets(m: Map<u32, Seq<NameEntry>>) -> bool {
    forall|k: u32| #[trigger] m.contains_key(k) ==> exists|o: Option<char>| spec_onset_key(o) == k
}

impl View for NameIndex {
    /// The buckets: each onset key with the entries of its bucket.
    type V = Map<u32, Seq<NameEntry>>;

    closed spec fn view(&self) -> Map<u32, Seq<NameEntry>> {
        Map::new(|k: u32| self.by_onset@.contains_key(k), |k: u32| self.by_onset@[k]@)
    }
}

impl NameIndex {
    /// Only onset keys ever key a bucket.
    #[verifier::type_invariant]
    spec fn keys_are_onset_keys(self) -> bool {
        forall|k: u32| #[trigger]
            self.by_onset@.contains_key(k) ==> exists|o: Option<char>| spec_onset_key(o) == k
    }

    proof fn lemma_view(self)
        ensures
            forall|k: u32| #[trigger] self@.contains_key(k) == self.by_onset@.contains_key(k),
            forall|k: u32| #[trigger]
                self.by_onset@.contains_key(k) ==> self@[k] == self.by_onset@[k]@,
    {
        broadcast use vstd::map::group_map_axioms, vstd::map_lib::lemma_map_new_domain;

    }

    /// The entries of `entries` whose onset has key `k`, in order.
    pub open spec fn spec_bucket_of(entries: Seq<NameEntry>, k: u32) -> Seq<NameEntry> {
        entries.filter(|e: NameEntry| entry_key(e) == k)
    }

    /// `idx` buckets exactly `entries`: it has a bucket for the key of each
    /// entry's onset and no other, and each bucket holds the entries of its
    /// key in the order they were given in.
    pub open spec fn spec_built_from(idx: NameIndex, entries: Seq<NameEntry>) -> bool {
        &&& forall|k: u32|
            #[trigger] idx@.contains_key(k) <==> exists|i: int|
                0 <= i < entries.len() && entry_key(#[trigger] entries[i]) == k
        &&& forall|k: u32| #[trigger]
            idx@.contains_key(k) ==> idx@[k] == Self::spec_bucket_of(entries, k)
    }

    /// The bucket of `onset`: its entries, or none when the index has no
    /// bucket for it.
    pub open spec fn spec_bucket(self, onset: Option<char>) -> Seq<NameEntry> {
        if self@.contains_key(spec_onset_key(onset)) {
            self@[spec_onset_key(onset)]
        } else {
            Seq::empty()
        }
    }

    /// No bucket holds an entry.
    pub open spec fn spec_is_empty(self) -> bool {
        forall|k: u32| #[trigger] self@.contains_key(k) ==> self@[k].len() == 0
    }

    /// Buckets `entries` by onset, keeping their order within each bucket.
    pub fn from_entries(entries: Vec<NameEntry>) -> (r: NameIndex)
        ensures
            Self::spec_built_from(r, entries@),
            keys_are_onsets(r@),
    {
        broadcast use vstd::std_specs::hash::group_hash_axioms;

        let ghost all = entries@;
        let mut map: HashMap<u32, Vec<NameEntry>> = HashMap::new();
        let ghost mut done: int = 0;
        for e in it: entries
            invariant
                it.seq() == all,
                done == it.index(),
                0 <= done <= all.len(),
                forall|k: u32|
                    #[trigger] map@.contains_key(k) <==> exists|i: int|
                        0 <= i < done && entry_key(#[trigger] all[i]) == k,
                forall|k: u32| #[trigger]
                    map@.contains_key(k) ==> map@[k]@ == Self::spec_bucket_of(all.take(done), k),
        {
            assert(e == all[done]);
            let k = onset_key(e.phon.onset());
            let ghost old_map = map@;
            match map.remove(&k) {
                Some(mut v) => {
                    v.push(e);
                    map.insert(k, v);
                },
                None => {
                    let mut v: Vec<NameEntry> = Vec::new();
                    v.push(e);
                    map.insert(k, v);
                },
            }
            proof {
                assert forall|k2: u32| #[trigger] map@.contains_key(k2) implies map@[k2]@
                    == Self::spec_bucket_of(all.take(done + 1), k2) by {
                    lemma_filter_take_snoc(all, done, |x: NameEntry| entry_key(x) == k2);
                    if k2 != k {
                        assert(old_map.contains_key(k2));
                    } else if !old_map.contains_key(k) {
                        assert forall|i: int| 0 <= i < done implies entry_key(#[trigger] all[i])
                            != k by {
                            if entry_key(all[i]) == k {
                                assert(old_map.contains_key(k));
                            }
                        }
                        lemma_filter_none(all.take(done), |x: NameEntry| entry_key(x) == k);
                    }
                }
                assert forall|k2: u32| #[trigger] map@.contains_key(k2) <==> exists|i: int|
                    0 <= i < done + 1 && entry_key(#[trigger] all[i]) == k2 by {
                    if k2 != k && exists|i: int| 0 <= i < done + 1 && entry_key(#[trigger] all[i]) == k2 {
                        let i = choose|i: int| 0 <= i < done + 1 && entry_key(#[trigger] all[i]) == k2;
                        assert(i < done);
                    }
                }
                done = done + 1;
            }
        }
        assert(all.take(done) == all);
        assert forall|k: u32| #[trigger] map@.contains_key(k) implies exists|o: Option<char>|
            spec_onset_key(o) == k by {
            let i = choose|i: int| 0 <= i < all.len() && entry_key(#[trigger] all[i]) == k;
            assert(spec_onset_key(all[i].phon.onset_view()) == k);
        }
        let r = NameIndex { by_onset: map };
        proof {
            r.lemma_view();
        }
        r
    }

    /// The buckets, keyed by [`onset_key`].
    pub fn by_onset(&self) -> (r: &HashMap<u32, Vec<NameEntry>>)
        ensures
            r@.map_values(|v: Vec<NameEntry>| v@) == self@,
    {
        proof {
            self.lemma_view();
            broadcast use vstd::map::group_map_axioms, vstd::map_lib::lemma_map_new_domain;

            assert(self.by_onset@.map_values(|v: Vec<NameEntry>| v@) =~= self@);
        }
        &self.by_onset
    }

    /// Candidates sharing `onset` (empty if none).
    pub fn bucket(&self, onset: Option<char>) -> (r: &[NameEntry])
        ensures
            r@ == self.spec_bucket(onset),
    {
        broadcast use vstd::std_specs::hash::group_hash_axioms;

        proof {
            self.lemma_view();
        }
        let k = onset_key(onset);
        match self.by_onset.get(&k) {
            Some(v) => v.as_slice(),
            None => &[],
        }
    }

    /// `true` when no bucket holds an entry, that is, when the bucket of
    /// every onset is empty.
    pub fn is_empty(&self) -> (r: bool)
        ensures
            r == self.spec_is_empty(),
            r == forall|o: Option<char>| #[trigger] self.spec_bucket(o).len() == 0,
    {
        broadcast use vstd::std_specs::hash::group_hash_axioms;

        proof {
            use_type_invariant(self);
            self.lemma_view();
        }
        let ghost m = self.by_onset@;
        let ghost vals = vstd::std_specs::hash::spec_values_iter(&self.by_onset).remaining();
        let ghost mut checked: int = 0;
        for v in it: self.by_onset.values()
            invariant
                m == self.by_onset@,
                it.seq() == vals,
                vals.unref().to_set() == m.values(),
                checked == it.index(),
                forall|i: int| 0 <= i < checked ==> (#[trigger] vals[i]).len() == 0,
        {
            if v.len() != 0 {
                assert(m.values().contains(*v));
                proof {
                    use_type_invariant(self);
                    self.lemma_view();
                    broadcast use vstd::set::group_set_axioms;

                    assert(exists|k: u32| #[trigger] m.contains_key(k) && m[k] == *v);
                    let k = choose|k: u32| #[trigger] m.contains_key(k) && m[k] == *v;
                    assert(m[k].len() != 0);
                    assert(self@.contains_key(k));
                    assert(self@[k] == m[k]@);
                    assert(self@[k].len() != 0);
                    assert(!self.spec_is_empty());
                    lemma_empty_iff_buckets_empty(*self);
                }
                return false;
            }
            proof {
                checked = checked + 1;
            }
        }
        assert(checked == vals.len());
        assert forall|k: u32| #[trigger] m.contains_key(k) implies m[k].len() == 0 by {
            assert(m.values().contains(m[k]));
            assert(vals.unref().to_set().contains(m[k]));
            let i = choose|i: int| 0 <= i < vals.unref().len() && vals.unref()[i] == m[k];
            assert(*vals[i] == m[k]);
        }
        proof {
            self.lemma_view();
            lemma_empty_iff_buckets_empty(*self);
        }
        true
    }
}

/// An index built from a list of entries is empty exactly when the list is:
/// a corpus with at least one name always leaves something to scan.
pub proof fn lemma_built_index_empty_iff(idx: NameIndex, entries: Seq<NameEntry>)
    requires
        NameIndex::spec_built_from(idx, entries),
    ensures
        idx.spec_is_empty() == (entries.len() == 0),
{
    if entries.len() > 0 {
        let k = entry_key(entries[0]);
        assert(idx@.contains_key(k));
        let pred = |e: NameEntry| entry_key(e) == k;
        entries.lemma_filter_contains(pred, 0);
        assert(idx@[k] == entries.filter(pred));
        assert(idx@[k].len() > 0);
    } else {
        assert forall|k: u32| #[trigger] idx@.contains_key(k) implies idx@[k].len() == 0 by {
            let i = choose|i: int| 0 <= i < entries.len() && entry_key(#[trigger] entries[i]) == k;
        }
    }
}

/// In an index whose keys are all onset keys (every index is one: it is the
/// type's invariant, and [`NameIndex::is_empty`] states this law for every
/// index), no bucket holds an entry exactly when the bucket of every onset is
/// empty.
pub proof fn lemma_empty_iff_buckets_empty(idx: NameIndex)
    requires
        keys_are_onsets(idx@),
    ensures
        idx.spec_is_empty() <==> forall|o: Option<char>| #[trigger] idx.spec_bucket(o).len() == 0,
{
    if forall|o: Option<char>| #[trigger] idx.spec_bucket(o).len() == 0 {
        assert forall|k: u32| #[trigger] idx@.contains_key(k) implies idx@[k].len() == 0 by {
            let o = choose|o: Option<char>| spec_onset_key(o) == k;
            assert(idx.spec_bucket(o).len() == 0);
        }
    }
    if idx.spec_is_empty() {
        assert forall|o: Option<char>| #[trigger] idx.spec_bucket(o).len() == 0 by {
            if idx@.contains_key(spec_onset_key(o)) {
                assert(idx@[spec_onset_key(o)].len() == 0);
            }
        }
    }
}

// ---------------------------------------------------------------------------
// Files of a corpus directory
// ---------------------------------------------------------------------------

/// The name list that a file of a corpus directory contributes: its stem as
/// the language, its parsed records, when the file is a `.txt` file with at
/// least one record.
pub open spec fn spec_name_list(file_name: Seq<char>, content: Seq<char>) -> Option<(
    Seq<char>,
    Seq<NameRecordView>,
)> {
    match crate::text::spec_strip_suffix(file_name, seq!['.', 't', 'x', 't']) {
        Some(code) => {
            let recs = spec_parse_corpus(content);
            if recs.len() > 0 {
                Some((code, recs))
            } else {
                None
            }
        },
        None => None,
    }
}

/// The name list of the corpus file `file_name` holding `content`.
pub fn name_list(file_name: &str, content: &str) -> (r: Option<NameList>)
    ensures
        match spec_name_list(file_name@, content@) {
            Some((code, recs)) => r matches Some(l) && l.lang@ == code && records_view(
                l.entries@,
            ) == recs,
            None => r is None,
        },
{
    proof {
        reveal_strlit(".txt");
        assert(".txt"@ =~= seq!['.', 't', 'x', 't']);
    }
    match crate::text::strip_suffix(file_name, ".txt") {
        Some(code) => {
            let entries = parse_corpus(content);
            if entries.len() > 0 {
                Some(NameList { lang: code, entries })
            } else {
                None
            }
        },
        None => None,
    }
}

/// The language code of a model file: its name without `.g2p`, when it has
/// that extension.
pub fn model_code(file_name: &str) -> (r: Option<String>)
    ensures
        crate::text::opt_string_view(r) == crate::text::spec_strip_suffix(
            file_name@,
            seq!['.', 'g', '2', 'p'],
        ),
{
    proof {
        reveal_strlit(".g2p");
        assert(".g2p"@ =~= seq!['.', 'g', '2', 'p']);
    }
    crate::text::strip_suffix(file_name, ".g2p")
}

} // verus!
