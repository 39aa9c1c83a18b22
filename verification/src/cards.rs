//! The card dataset: one record per line, comma separated, the first field
//! the target word and the rest its taboo words. Loading trims and splits the
//! text, drops blank lines, rejects a record whose word field is empty, and
//! drops records whose word was already seen or contains a space or hyphen.

use vstd::prelude::*;
use vstd::string::StrSliceExecFns;

verus! {

/// The whitespace characters that trimming removes from line and field ends.
pub open spec fn is_space(c: char) -> bool {
    c == ' ' || c == '\t' || c == '\r' || c == '\n' || c == '\u{b}' || c == '\u{c}'
}

/// `s` without its leading whitespace.
pub open spec fn trim_start_spec(s: Seq<char>) -> Seq<char>
    decreases s.len(),
{
    if s.len() > 0 && is_space(s[0]) {
        trim_start_spec(s.drop_first())
    } else {
        s
    }
}

/// `s` without its trailing whitespace.
pub open spec fn trim_end_spec(s: Seq<char>) -> Seq<char>
    decreases s.len(),
{
    if s.len() > 0 && is_space(s.last()) {
        trim_end_spec(s.drop_last())
    } else {
        s
    }
}

/// `s` without leading or trailing whitespace.
pub open spec fn trim_spec(s: Seq<char>) -> Seq<char> {
    trim_end_spec(trim_start_spec(s))
}

/// The pieces of `s` between occurrences of `sep`: one piece more than there
/// are separators, in order, each piece free of `sep`.
pub open spec fn split_spec(s: Seq<char>, sep: char) -> Seq<Seq<char>>
    decreases s.len(),
{
    if s.len() == 0 {
        seq![Seq::<char>::empty()]
    } else if s[0] == sep {
        seq![Seq::<char>::empty()] + split_spec(s.drop_first(), sep)
    } else {
        let rest = split_spec(s.drop_first(), sep);
        seq![seq![s[0]] + rest[0]] + rest.drop_first()
    }
}

/// Splitting always yields at least one piece.
pub proof fn lemma_split_len(s: Seq<char>, sep: char)
    ensures
        split_spec(s, sep).len() >= 1,
    decreases s.len(),
{
    if s.len() == 0 {
    } else {
        lemma_split_len(s.drop_first(), sep);
    }
}

/// A text without the separator is a single piece.
proof fn lemma_split_no_sep(s: Seq<char>, sep: char)
    requires
        forall|k: int| 0 <= k < s.len() ==> s[k] != sep,
    ensures
        split_spec(s, sep) == seq![s],
    decreases s.len(),
{
    if s.len() == 0 {
        assert(Seq::<char>::empty() =~= s);
        assert(split_spec(s, sep) =~= seq![s]);
    } else {
        assert(forall|k: int|
            0 <= k < s.drop_first().len() ==> s.drop_first()[k] != sep);
        lemma_split_no_sep(s.drop_first(), sep);
        lemma_split_len(s.drop_first(), sep);
        assert(seq![s[0]] + s.drop_first() =~= s);
        assert(split_spec(s, sep) =~= seq![s]);
    }
}

/// Splitting a text whose first separator stands at `i` yields the prefix
/// before `i` and then the split of what follows `i`.
proof fn lemma_split_head(s: Seq<char>, sep: char, i: int)
    requires
        0 <= i < s.len(),
        s[i] == sep,
        forall|k: int| 0 <= k < i ==> s[k] != sep,
    ensures
        split_spec(s, sep) == seq![s.subrange(0, i)] + split_spec(
            s.subrange(i + 1, s.len() as int),
            sep,
        ),
    decreases i,
{
    if i == 0 {
        assert(s.subrange(0, 0) =~= Seq::<char>::empty());
        assert(s.subrange(1, s.len() as int) =~= s.drop_first());
        assert(split_spec(s, sep) =~= seq![s.subrange(0, 0)] + split_spec(
            s.subrange(1, s.len() as int),
            sep,
        ));
    } else {
        let t = s.drop_first();
        assert(forall|k: int| 0 <= k < i - 1 ==> t[k] != sep);
        lemma_split_head(t, sep, i - 1);
        lemma_split_len(t.subrange(i, t.len() as int), sep);
        assert(seq![s[0]] + t.subrange(0, i - 1) =~= s.subrange(0, i));
        assert(t.subrange(i, t.len() as int) =~= s.subrange(i + 1, s.len() as int));
        assert(split_spec(s, sep) =~= seq![s.subrange(0, i)] + split_spec(
            s.subrange(i + 1, s.len() as int),
            sep,
        ));
    }
}

/// Whether `c` is removed by trimming.
fn is_space_char(c: char) -> (r: bool)
    ensures
        r == is_space(c),
{
    c == ' ' || c == '\t' || c == '\r' || c == '\n' || c == '\u{b}' || c == '\u{c}'
}

/// Trimming keeps exactly the characters from the first non-space on.
proof fn lemma_trim_start_at(s: Seq<char>, i: int)
    requires
        0 <= i <= s.len(),
        forall|k: int| 0 <= k < i ==> is_space(s[k]),
        i < s.len() ==> !is_space(s[i]),
    ensures
        trim_start_spec(s) == s.subrange(i, s.len() as int),
    decreases i,
{
    if i == 0 {
        assert(s.subrange(0, s.len() as int) =~= s);
    } else {
        let t = s.drop_first();
        assert(forall|k: int| 0 <= k < i - 1 ==> is_space(t[k]));
        lemma_trim_start_at(t, i - 1);
        assert(t.subrange(i - 1, t.len() as int) =~= s.subrange(i, s.len() as int));
    }
}

/// Trimming keeps exactly the characters up to the last non-space.
proof fn lemma_trim_end_at(s: Seq<char>, j: int)
    requires
        0 <= j <= s.len(),
        forall|k: int| j <= k < s.len() ==> is_space(s[k]),
        j > 0 ==> !is_space(s[j - 1]),
    ensures
        trim_end_spec(s) == s.subrange(0, j),
    decreases s.len() - j,
{
    if j == s.len() {
        assert(s.subrange(0, j) =~= s);
    } else {
        let t = s.drop_last();
        assert(forall|k: int| j <= k < t.len() ==> is_space(t[k]));
        lemma_trim_end_at(t, j);
        assert(t.subrange(0, j) =~= s.subrange(0, j));
    }
}

/// `s` without leading or trailing whitespace.
pub fn trim_str<'a>(s: &'a str) -> (r: &'a str)
    ensures
        r@ == trim_spec(s@),
{
    let n = s.unicode_len();
    let mut i: usize = 0;
    while i < n
        invariant_except_break
            n == s@.len(),
            i <= n,
            forall|k: int| 0 <= k < i ==> is_space(s@[k]),
        ensures
            n == s@.len(),
            i <= n,
            forall|k: int| 0 <= k < i ==> is_space(s@[k]),
            i < n ==> !is_space(s@[i as int]),
        decreases n - i,
    {
        if !is_space_char(s.get_char(i)) {
            break ;
        }
        i += 1;
    }
    let mut j: usize = n;
    while j > i
        invariant_except_break
            n == s@.len(),
            i <= j <= n,
            forall|k: int| j <= k < n ==> is_space(s@[k]),
        ensures
            n == s@.len(),
            i <= j <= n,
            forall|k: int| j <= k < n ==> is_space(s@[k]),
            j > i ==> !is_space(s@[j - 1]),
        decreases j,
    {
        if !is_space_char(s.get_char(j - 1)) {
            break ;
        }
        j -= 1;
    }
    let r = s.substring_char(i, j);
    proof {
        lemma_trim_start_at(s@, i as int);
        let t = s@.subrange(i as int, s@.len() as int);
        assert(forall|k: int| j - i <= k < t.len() ==> is_space(t[k]));
        lemma_trim_end_at(t, j - i);
        assert(t.subrange(0, j - i) =~= s@.subrange(i as int, j as int));
    }
    r
}

/// A playing card: the target word and the words that may not be spoken
/// while it is described.
pub struct Card {
    pub word: String,
    pub taboo: Vec<String>,
}

/// The mathematical value of a card: its word and taboo words as character
/// sequences.
pub struct CardV {
    pub word: Seq<char>,
    pub taboo: Seq<Seq<char>>,
}

impl View for Card {
    type V = CardV;

    open spec fn view(&self) -> CardV {
        CardV { word: self.word@, taboo: self.taboo.deep_view() }
    }
}

impl Card {
    /// A copy of this card with the same word and the same taboo words.
    pub fn duplicate(&self) -> (r: Card)
        ensures
            r@ == self@,
    {
        let mut taboo: Vec<String> = Vec::new();
        let mut i: usize = 0;
        while i < self.taboo.len()
            invariant
                i <= self.taboo@.len(),
                taboo.deep_view() == self.taboo.deep_view().subrange(0, i as int),
            decreases self.taboo@.len() - i,
        {
            let ghost prefix = taboo.deep_view();
            taboo.push(self.taboo[i].clone());
            proof {
                assert(taboo.deep_view() =~= prefix.push(self.taboo@[i as int]@));
                assert(taboo.deep_view() =~= self.taboo.deep_view().subrange(0, i + 1));
            }
            i += 1;
        }
        proof {
            assert(taboo.deep_view() =~= self.taboo.deep_view());
        }
        let r = Card { word: self.word.clone(), taboo };
        proof {
            assert(r@ == self@);
        }
        r
    }
}

/// The values of a sequence of cards.
pub open spec fn cards_view(cards: Seq<Card>) -> Seq<CardV> {
    cards.map_values(|c: Card| c@)
}

/// The fields of a record line: the pieces between commas, each trimmed.
pub open spec fn line_fields(line: Seq<char>) -> Seq<Seq<char>> {
    split_spec(line, ',').map_values(|f: Seq<char>| trim_spec(f))
}

/// The target word of a record line: its first field.
pub open spec fn line_word(line: Seq<char>) -> Seq<char> {
    line_fields(line)[0]
}

/// The taboo words of a record line: every field after the first.
pub open spec fn line_taboo(line: Seq<char>) -> Seq<Seq<char>> {
    line_fields(line).drop_first()
}

/// The card a record line describes.
pub open spec fn line_card(line: Seq<char>) -> CardV {
    CardV { word: line_word(line), taboo: line_taboo(line) }
}

/// A word that cannot be a single spoken target: it contains a space or a
/// hyphen.
pub open spec fn multiword(w: Seq<char>) -> bool {
    w.contains(' ') || w.contains('-')
}

/// Some card in `pool` carries the word `w`.
pub open spec fn has_word(pool: Seq<CardV>, w: Seq<char>) -> bool {
    exists|i: int| 0 <= i < pool.len() && pool[i].word == w
}

/// The content lines of a dataset: each line trimmed, blank lines dropped,
/// in order.
pub open spec fn content_of(lines: Seq<Seq<char>>) -> Seq<Seq<char>>
    decreases lines.len(),
{
    if lines.len() == 0 {
        Seq::empty()
    } else {
        let rest = content_of(lines.drop_last());
        let t = trim_spec(lines.last());
        if t.len() > 0 {
            rest.push(t)
        } else {
            rest
        }
    }
}

/// The content lines of a raw dataset text.
pub open spec fn content_lines(raw: Seq<char>) -> Seq<Seq<char>> {
    content_of(split_spec(raw, '\n'))
}

/// A dataset is rejected exactly when some content line's word field trims to
/// nothing.
pub open spec fn load_fails(raw: Seq<char>) -> bool {
    exists|i: int| 0 <= i < content_lines(raw).len() && line_word(content_lines(raw)[i]).len()
        == 0
}

/// The pool the content lines produce: each line's card in order, dropping a
/// card whose word was already pooled or contains a space or hyphen.
pub open spec fn pool_spec(lines: Seq<Seq<char>>) -> Seq<CardV>
    decreases lines.len(),
{
    if lines.len() == 0 {
        Seq::empty()
    } else {
        let prev = pool_spec(lines.drop_last());
        let c = line_card(lines.last());
        if has_word(prev, c.word) || multiword(c.word) {
            prev
        } else {
            prev.push(c)
        }
    }
}

/// A well-formed pool: no two cards share a word, and every word is non-empty
/// and a single spoken target.
pub open spec fn pool_wf(pool: Seq<CardV>) -> bool {
    &&& forall|i: int, j: int| 0 <= i < j < pool.len() ==> pool[i].word != pool[j].word
    &&& forall|i: int| 0 <= i < pool.len() ==> (#[trigger] pool[i].word).len() > 0 && !multiword(
        pool[i].word,
    )
}

/// Content lines accumulate over concatenation.
proof fn lemma_content_split(a: Seq<Seq<char>>, b: Seq<Seq<char>>)
    ensures
        content_of(a + b) == content_of(a) + content_of(b),
    decreases b.len(),
{
    if b.len() == 0 {
        assert(a + b =~= a);
        assert(content_of(a) + content_of(b) =~= content_of(a));
    } else {
        assert((a + b).drop_last() =~= a + b.drop_last());
        assert((a + b).last() == b.last());
        lemma_content_split(a, b.drop_last());
        if trim_spec(b.last()).len() > 0 {
            assert(content_of(a) + content_of(b.drop_last()).push(trim_spec(b.last()))
                =~= (content_of(a) + content_of(b.drop_last())).push(trim_spec(b.last())));
        }
    }
}

/// A card with a space or hyphen in its word never enters the pool.
///
/// Multi-word exclusion law: a record line whose word contains a space or a
/// hyphen never appears in the pool the lines produce.
pub proof fn lemma_multiword_never_pooled(lines: Seq<Seq<char>>, w: Seq<char>)
    requires
        multiword(w),
    ensures
        !has_word(pool_spec(lines), w),
    decreases lines.len(),
{
    if lines.len() > 0 {
        lemma_multiword_never_pooled(lines.drop_last(), w);
        let prev = pool_spec(lines.drop_last());
        let c = line_card(lines.last());
        if !(has_word(prev, c.word) || multiword(c.word)) {
            if has_word(prev.push(c), w) {
                let i = choose|i: int| 0 <= i < prev.push(c).len() && prev.push(c)[i].word == w;
                if i < prev.len() {
                    assert(prev[i].word == w);
                }
            }
        }
    }
}

/// A word no line carries never enters the pool.
proof fn lemma_absent_word(lines: Seq<Seq<char>>, w: Seq<char>)
    requires
        forall|j: int| 0 <= j < lines.len() ==> line_word(#[trigger] lines[j]) != w,
    ensures
        !has_word(pool_spec(lines), w),
    decreases lines.len(),
{
    if lines.len() > 0 {
        lemma_absent_word(lines.drop_last(), w);
        let prev = pool_spec(lines.drop_last());
        let c = line_card(lines.last());
        if !(has_word(prev, c.word) || multiword(c.word)) {
            assert(c.word == line_word(lines[lines.len() - 1]));
            if has_word(prev.push(c), w) {
                let i = choose|i: int| 0 <= i < prev.push(c).len() && prev.push(c)[i].word == w;
                if i < prev.len() {
                    assert(prev[i].word == w);
                }
            }
        }
    }
}

/// No two cards of a produced pool share a word.
pub proof fn lemma_pool_words_unique(lines: Seq<Seq<char>>)
    ensures
        forall|i: int, j: int| 0 <= i < j < pool_spec(lines).len() ==> pool_spec(lines)[i].word
            != pool_spec(lines)[j].word,
    decreases lines.len(),
{
    if lines.len() > 0 {
        lemma_pool_words_unique(lines.drop_last());
        let prev = pool_spec(lines.drop_last());
        let c = line_card(lines.last());
        if !(has_word(prev, c.word) || multiword(c.word)) {
            assert forall|i: int, j: int| 0 <= i < j < prev.push(c).len() implies prev.push(
                c,
            )[i].word != prev.push(c)[j].word by {
                if j == prev.len() {
                    assert(!has_word(prev, c.word));
                    assert(prev[i].word != c.word);
                }
            }
        }
    }
}

/// A pool produced from lines with non-empty words is well formed.
pub proof fn lemma_pool_spec_wf(lines: Seq<Seq<char>>)
    requires
        forall|j: int| 0 <= j < lines.len() ==> line_word(#[trigger] lines[j]).len() > 0,
    ensures
        pool_wf(pool_spec(lines)),
    decreases lines.len(),
{
    lemma_pool_words_unique(lines);
    if lines.len() > 0 {
        lemma_pool_spec_wf(lines.drop_last());
    }
}

/// Dedup law: where a line is the first to carry its word, and that word is a
/// single spoken target, the pool holds its card, and every pooled card with
/// that word is exactly that line's card — so two lines with one word leave
/// one card, with the first line's taboo list.
pub proof fn lemma_dedup_first_wins(lines: Seq<Seq<char>>, i: int)
    requires
        0 <= i < lines.len(),
        !multiword(line_word(lines[i])),
        forall|j: int| 0 <= j < i ==> line_word(#[trigger] lines[j]) != line_word(lines[i]),
    ensures
        has_word(pool_spec(lines), line_word(lines[i])),
        forall|k: int| 0 <= k < pool_spec(lines).len() && (#[trigger] pool_spec(lines)[k]).word
            == line_word(lines[i]) ==> pool_spec(lines)[k] == line_card(lines[i]),
    decreases lines.len(),
{
    let w = line_word(lines[i]);
    let prev = pool_spec(lines.drop_last());
    let c = line_card(lines.last());
    if i == lines.len() - 1 {
        assert(forall|j: int| 0 <= j < lines.drop_last().len() ==> line_word(
            #[trigger] lines.drop_last()[j],
        ) != w);
        lemma_absent_word(lines.drop_last(), w);
        assert(c.word == w);
        assert(pool_spec(lines) == prev.push(c));
        assert(prev.push(c)[prev.len() as int] == c);
        assert forall|k: int| 0 <= k < prev.push(c).len() && (#[trigger] prev.push(c)[k]).word
            == w implies prev.push(c)[k] == line_card(lines[i]) by {
            if k < prev.len() {
                assert(prev[k].word == w);
                assert(has_word(prev, w));
            }
        }
    } else {
        lemma_dedup_first_wins(lines.drop_last(), i);
        if !(has_word(prev, c.word) || multiword(c.word)) {
            // The last line's card enters the pool, so its word is new; in
            // particular it is not `w`, which the pool already holds.
            assert(c.word != w);
            assert forall|k: int| 0 <= k < prev.push(c).len() && (#[trigger] prev.push(
                c,
            )[k]).word == w implies prev.push(c)[k] == line_card(lines[i]) by {
                if k < prev.len() {
                    assert(prev[k].word == w);
                }
            }
            let m = choose|m: int| 0 <= m < prev.len() && prev[m].word == w;
            assert(prev.push(c)[m].word == w);
        }
    }
}

/// The error a dataset load can report: some content line's word field is
/// empty.
#[derive(Clone, Copy, PartialEq, Eq, Structural, Debug)]
pub enum LoadError {
    MissingWord,
}

/// Why a record was dropped during loading: its word was already pooled by an
/// earlier record, or it contains a space or hyphen.
#[derive(Clone, Copy, PartialEq, Eq, Structural, Debug)]
pub enum DropReason {
    Duplicate,
    MultiWord,
}

/// One record dropped during loading, a diagnostic and never an error: the
/// offending word and why it was dropped.
pub struct LoadDrop {
    pub word: String,
    pub reason: DropReason,
}

/// The mathematical value of one dropped record.
pub struct LoadDropV {
    pub word: Seq<char>,
    pub reason: DropReason,
}

impl View for LoadDrop {
    type V = LoadDropV;

    open spec fn view(&self) -> LoadDropV {
        LoadDropV { word: self.word@, reason: self.reason }
    }
}

/// The values of a list of dropped records.
pub open spec fn drops_view(drops: Seq<LoadDrop>) -> Seq<LoadDropV> {
    drops.map_values(|d: LoadDrop| d@)
}

/// The diagnostics the content lines produce, in order: a record whose word
/// is already pooled is reported as a duplicate; otherwise a record whose
/// word contains a space or hyphen is reported as a multi-word target.
pub open spec fn drops_spec(lines: Seq<Seq<char>>) -> Seq<LoadDropV>
    decreases lines.len(),
{
    if lines.len() == 0 {
        Seq::empty()
    } else {
        let prev = drops_spec(lines.drop_last());
        let pool = pool_spec(lines.drop_last());
        let c = line_card(lines.last());
        if has_word(pool, c.word) {
            prev.push(LoadDropV { word: c.word, reason: DropReason::Duplicate })
        } else if multiword(c.word) {
            prev.push(LoadDropV { word: c.word, reason: DropReason::MultiWord })
        } else {
            prev
        }
    }
}

/// The full deduplicated set of cards, loaded once at startup.
pub struct CardPool {
    pub cards: Vec<Card>,
}

impl View for CardPool {
    type V = Seq<CardV>;

    open spec fn view(&self) -> Seq<CardV> {
        cards_view(self.cards@)
    }
}

impl CardPool {
    /// A well-formed pool: distinct, non-empty, single-word targets.
    pub open spec fn wf(&self) -> bool {
        pool_wf(self@)
    }

    /// How many cards the pool holds.
    pub fn len(&self) -> (n: usize)
        ensures
            n == self@.len(),
    {
        self.cards.len()
    }

    /// Whether some card in the pool carries `w`.
    fn knows_word(&self, w: &String) -> (r: bool)
        ensures
            r == has_word(self@, w@),
    {
        let mut k: usize = 0;
        while k < self.cards.len()
            invariant
                k <= self.cards@.len(),
                forall|j: int| 0 <= j < k ==> cards_view(self.cards@)[j].word != w@,
            decreases self.cards@.len() - k,
        {
            if self.cards[k].word == *w {
                proof {
                    assert(cards_view(self.cards@)[k as int].word == w@);
                }
                return true;
            }
            k += 1;
        }
        false
    }

    /// Load the pool from the raw dataset text: one record per line, comma
    /// separated, the first field the word and the rest its taboo words.
    /// Blank lines are skipped; a record whose word field is empty rejects
    /// the whole dataset; a record whose word was already seen, or contains a
    /// space or hyphen, is dropped.
    pub fn load(raw: &str) -> (r: Result<CardPool, LoadError>)
        ensures
            r is Ok <==> !load_fails(raw@),
            r matches Ok(pool) ==> pool@ == pool_spec(content_lines(raw@)) && pool.wf(),
    {
        match CardPool::load_report(raw) {
            Ok((pool, _)) => Ok(pool),
            Err(e) => Err(e),
        }
    }

    /// Load the pool and also report every dropped record — a duplicate word
    /// or a multi-word target — as diagnostics, in record order.
    pub fn load_report(raw: &str) -> (r: Result<(CardPool, Vec<LoadDrop>), LoadError>)
        ensures
            r is Ok <==> !load_fails(raw@),
            r matches Ok(p) ==> p.0@ == pool_spec(content_lines(raw@)) && p.0.wf()
                && drops_view(p.1@) == drops_spec(content_lines(raw@)),
    {
        let lines = split_str(raw, '\n');
        let ghost dv = lines.deep_view();
        let mut pool = CardPool { cards: Vec::new() };
        let mut drops: Vec<LoadDrop> = Vec::new();
        let mut i: usize = 0;
        proof {
            assert(dv.subrange(0, 0) =~= Seq::<Seq<char>>::empty());
            assert(cards_view(pool.cards@) =~= Seq::<CardV>::empty());
            assert(drops_view(drops@) =~= Seq::<LoadDropV>::empty());
        }
        while i < lines.len()
            invariant
                lines.deep_view() == dv,
                dv == split_spec(raw@, '\n'),
                i <= lines@.len(),
                lines@.len() == dv.len(),
                cards_view(pool.cards@) == pool_spec(content_of(dv.subrange(0, i as int))),
                drops_view(drops@) == drops_spec(content_of(dv.subrange(0, i as int))),
                forall|k: int| 0 <= k < content_of(dv.subrange(0, i as int)).len()
                    ==> line_word(#[trigger] content_of(dv.subrange(0, i as int))[k]).len() > 0,
            decreases lines@.len() - i,
        {
            let ghost content_prev = content_of(dv.subrange(0, i as int));
            let t = trim_str(lines[i].as_str());
            proof {
                assert(lines@[i as int]@ == dv[i as int]);
                assert(dv.subrange(0, i + 1).drop_last() =~= dv.subrange(0, i as int));
                assert(dv.subrange(0, i + 1).last() == dv[i as int]);
            }
            if t.unicode_len() == 0 {
                proof {
                    assert(content_of(dv.subrange(0, i + 1)) == content_prev);
                }
                i += 1;
                continue ;
            }
            let ghost content_next = content_prev.push(t@);
            proof {
                assert(content_of(dv.subrange(0, i + 1)) == content_next);
            }
            let fields = split_str(t, ',');
            proof {
                lemma_split_len(t@, ',');
                assert(fields.deep_view().len() == split_spec(t@, ',').len());
                assert(fields.deep_view()[0] == split_spec(t@, ',')[0]);
            }
            let word_trimmed = trim_str(fields[0].as_str());
            if word_trimmed.unicode_len() == 0 {
                // A content line without a word field: the dataset is bad.
                proof {
                    assert(line_word(t@).len() == 0);
                    assert(dv =~= dv.subrange(0, i + 1) + dv.subrange(i + 1, dv.len() as int));
                    lemma_content_split(
                        dv.subrange(0, i + 1),
                        dv.subrange(i + 1, dv.len() as int),
                    );
                    let all = content_lines(raw@);
                    let bad = content_prev.len() as int;
                    assert(all[bad] == t@);
                    assert(load_fails(raw@));
                }
                return Err(LoadError::MissingWord);
            }
            let word = word_trimmed.to_owned();
            proof {
                assert(word@ == line_word(t@));
            }
            let multi = word_is_multi(&word);
            let seen = pool.knows_word(&word);
            if multi || seen {
                proof {
                    assert(line_card(t@).word == word@);
                    assert(content_next.drop_last() =~= content_prev);
                    assert(content_next.last() == t@);
                    assert(pool_spec(content_next) == pool_spec(content_prev));
                }
                // A duplicate is reported as such even when it is also a
                // multi-word target; only unseen multi-word targets get the
                // other diagnostic.
                let reason = if seen {
                    DropReason::Duplicate
                } else {
                    DropReason::MultiWord
                };
                let ghost drops_prev = drops_view(drops@);
                drops.push(LoadDrop { word, reason });
                proof {
                    assert(drops_view(drops@) =~= drops_prev.push(
                        LoadDropV { word: line_card(t@).word, reason },
                    ));
                    assert(drops_view(drops@) =~= drops_spec(content_next));
                }
            } else {
                let mut taboo: Vec<String> = Vec::new();
                let mut j: usize = 1;
                proof {
                    assert(taboo.deep_view() =~= line_fields(t@).subrange(1, 1));
                }
                while j < fields.len()
                    invariant
                        fields.deep_view() == split_spec(t@, ','),
                        1 <= j <= fields@.len(),
                        fields@.len() == split_spec(t@, ',').len(),
                        taboo.deep_view() == line_fields(t@).subrange(1, j as int),
                    decreases fields@.len() - j,
                {
                    let piece = trim_str(fields[j].as_str()).to_owned();
                    let ghost prefix = taboo.deep_view();
                    proof {
                        assert(fields@[j as int]@ == split_spec(t@, ',')[j as int]);
                        assert(piece@ == line_fields(t@)[j as int]);
                    }
                    taboo.push(piece);
                    proof {
                        assert(taboo.deep_view() =~= prefix.push(piece@));
                        assert(taboo.deep_view() =~= line_fields(t@).subrange(1, j + 1));
                    }
                    j += 1;
                }
                let card = Card { word, taboo };
                proof {
                    assert(line_fields(t@).len() == split_spec(t@, ',').len());
                    assert(card@.taboo =~= line_taboo(t@));
                    assert(card@ == line_card(t@));
                    assert(content_next.drop_last() =~= content_prev);
                    assert(content_next.last() == t@);
                    assert(pool_spec(content_next) == pool_spec(content_prev).push(
                        line_card(t@),
                    ));
                    assert(drops_spec(content_next) == drops_spec(content_prev));
                }
                let ghost cards_prev = cards_view(pool.cards@);
                pool.cards.push(card);
                proof {
                    assert(cards_view(pool.cards@) =~= cards_prev.push(card@));
                }
            }
            i += 1;
        }
        proof {
            assert(dv.subrange(0, dv.len() as int) =~= dv);
            assert(!load_fails(raw@));
            lemma_pool_spec_wf(content_lines(raw@));
        }
        Ok((pool, drops))
    }
}

/// Whether `w` contains a space or a hyphen.
fn word_is_multi(w: &String) -> (r: bool)
    ensures
        r == multiword(w@),
{
    let s = w.as_str();
    let n = s.unicode_len();
    let mut i: usize = 0;
    while i < n
        invariant
            n == s@.len(),
            s@ == w@,
            i <= n,
            forall|k: int| 0 <= k < i ==> s@[k] != ' ' && s@[k] != '-',
        decreases n - i,
    {
        let c = s.get_char(i);
        if c == ' ' || c == '-' {
            proof {
                assert(w@[i as int] == c);
            }
            return true;
        }
        i += 1;
    }
    false
}

/// The pieces of `s` between occurrences of `sep`, as owned strings.
pub fn split_str(s: &str, sep: char) -> (fields: Vec<String>)
    ensures
        fields.deep_view() == split_spec(s@, sep),
{
    let n = s.unicode_len();
    let mut fields: Vec<String> = Vec::new();
    let mut start: usize = 0;
    let mut i: usize = 0;
    proof {
        assert(s@.subrange(0, s@.len() as int) =~= s@);
        assert(Seq::<Seq<char>>::empty() + split_spec(s@, sep) =~= split_spec(s@, sep));
    }
    while i < n
        invariant
            n == s@.len(),
            start <= i <= n,
            fields.deep_view() + split_spec(s@.subrange(start as int, n as int), sep)
                == split_spec(s@, sep),
            forall|k: int| start <= k < i ==> s@[k] != sep,
        decreases n - i,
    {
        if s.get_char(i) == sep {
            let piece = s.substring_char(start, i).to_owned();
            proof {
                let u = s@.subrange(start as int, n as int);
                assert(forall|k: int| 0 <= k < i - start ==> u[k] != sep);
                lemma_split_head(u, sep, i - start);
                assert(u.subrange(0, i - start) =~= s@.subrange(start as int, i as int));
                assert(u.subrange(i - start + 1, u.len() as int) =~= s@.subrange(
                    i as int + 1,
                    n as int,
                ));
            }
            let ghost old_fields = fields.deep_view();
            fields.push(piece);
            proof {
                assert(fields.deep_view() =~= old_fields.push(piece@));
                assert(fields.deep_view() + split_spec(
                    s@.subrange(i as int + 1, n as int),
                    sep,
                ) =~= split_spec(s@, sep));
            }
            start = i + 1;
        }
        i += 1;
    }
    let piece = s.substring_char(start, n).to_owned();
    proof {
        let u = s@.subrange(start as int, n as int);
        assert(forall|k: int| 0 <= k < u.len() ==> u[k] != sep);
        lemma_split_no_sep(u, sep);
    }
    let ghost old_fields = fields.deep_view();
    fields.push(piece);
    proof {
        assert(fields.deep_view() =~= old_fields.push(piece@));
        assert(fields.deep_view() =~= split_spec(s@, sep));
    }
    fields
}

} // verus!
