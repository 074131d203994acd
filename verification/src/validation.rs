//! Text handling of the validation tools: CSV cells and lines, `key=value` metric
//! lines, the artifact lines that nodes log, and the status codes of a report.
//! Text is handled as its characters; a `String` is made of them by the caller.
use crate::iptext::dec_text;
use crate::node_config::{char_is_white_space, is_white_space};
use crate::text::{ascii_chars, dec_chars, push_dec_u64};
use vstd::prelude::*;

verus! {

/// The characters of a string, in order.
pub fn chars_of(s: &str) -> (r: Vec<char>)
    ensures
        r@ == s@,
{
    let mut out: Vec<char> = Vec::new();
    for c in it: s.chars()
        invariant
            it.seq() == s@,
            out@ == it.seq().take(it.index() as int),
    {
        out.push(c);
    }
    out
}


/// A cell needs quoting when it holds a comma, a quote or a line break.
pub open spec fn needs_quotes(v: Seq<char>) -> bool {
    v.contains(',') || v.contains('"') || v.contains('\n') || v.contains('\r')
}

/// The characters with each quote written twice.
pub open spec fn doubled_quotes(v: Seq<char>) -> Seq<char>
    decreases v.len(),
{
    if v.len() == 0 {
        Seq::empty()
    } else {
        doubled_quotes(v.drop_last()) + if v.last() == '"' {
            seq!['"', '"']
        } else {
            seq![v.last()]
        }
    }
}

/// A CSV cell: quoted, with doubled inner quotes, where it needs quoting.
pub open spec fn csv_escaped(v: Seq<char>) -> Seq<char> {
    if needs_quotes(v) {
        seq!['"'] + doubled_quotes(v) + seq!['"']
    } else {
        v
    }
}

fn is_quote_trigger(c: char) -> (r: bool)
    ensures
        r == (c == ',' || c == '"' || c == '\n' || c == '\r'),
{
    c == ',' || c == '"' || c == '\n' || c == '\r'
}

/// Escape one CSV cell.
pub fn csv_escape(v: &[char]) -> (r: Vec<char>)
    ensures
        r@ == csv_escaped(v@),
{
    let mut quote = false;
    let mut i: usize = 0;
    while i < v.len()
        invariant
            i <= v@.len(),
            quote == exists|j: int| 0 <= j < i && (v@[j] == ',' || v@[j] == '"' || v@[j] == '\n' || v@[j] == '\r'),
        decreases v@.len() - i,
    {
        if is_quote_trigger(v[i]) {
            quote = true;
        }
        i = i + 1;
    }
    assert(quote == needs_quotes(v@)) by {
        if quote {
            let j = choose|j: int| 0 <= j < v@.len() && (v@[j] == ',' || v@[j] == '"' || v@[j] == '\n' || v@[j] == '\r');
            assert(v@.contains(v@[j]));
        }
        if needs_quotes(v@) {
            if v@.contains(',') {
                let j = choose|j: int| 0 <= j < v@.len() && v@[j] == ',';
                assert(v@[j] == ',');
            } else if v@.contains('"') {
                let j = choose|j: int| 0 <= j < v@.len() && v@[j] == '"';
                assert(v@[j] == '"');
            } else if v@.contains('\n') {
                let j = choose|j: int| 0 <= j < v@.len() && v@[j] == '\n';
                assert(v@[j] == '\n');
            } else {
                let j = choose|j: int| 0 <= j < v@.len() && v@[j] == '\r';
                assert(v@[j] == '\r');
            }
        }
    }
    let mut out: Vec<char> = Vec::new();
    if !quote {
        let mut k: usize = 0;
        while k < v.len()
            invariant
                k <= v@.len(),
                out@ == v@.take(k as int),
            decreases v@.len() - k,
        {
            out.push(v[k]);
            k = k + 1;
            assert(out@ =~= v@.take(k as int));
        }
        assert(v@.take(v@.len() as int) =~= v@);
        return out;
    }
    out.push('"');
    let mut k: usize = 0;
    while k < v.len()
        invariant
            k <= v@.len(),
            out@ == seq!['"'] + doubled_quotes(v@.take(k as int)),
        decreases v@.len() - k,
    {
        assert(v@.take(k + 1).drop_last() =~= v@.take(k as int));
        if v[k] == '"' {
            out.push('"');
            out.push('"');
        } else {
            out.push(v[k]);
        }
        k = k + 1;
        assert(out@ =~= seq!['"'] + doubled_quotes(v@.take(k as int)));
    }
    assert(v@.take(v@.len() as int) =~= v@);
    out.push('"');
    out
}


/// The views of a sequence of character vectors.
pub open spec fn cells_view(v: Seq<Vec<char>>) -> Seq<Seq<char>> {
    v.map_values(|c: Vec<char>| c@)
}

/// The cells joined by commas.
pub open spec fn joined(cells: Seq<Seq<char>>) -> Seq<char>
    decreases cells.len(),
{
    if cells.len() == 0 {
        Seq::empty()
    } else if cells.len() == 1 {
        cells[0]
    } else {
        joined(cells.drop_last()) + seq![','] + cells.last()
    }
}

/// Each cell escaped.
pub open spec fn escaped_cells(cells: Seq<Seq<char>>) -> Seq<Seq<char>> {
    cells.map_values(|c: Seq<char>| csv_escaped(c))
}

fn push_all(out: &mut Vec<char>, s: &[char])
    ensures
        final(out)@ == old(out)@ + s@,
{
    let mut k: usize = 0;
    while k < s.len()
        invariant
            k <= s@.len(),
            out@ == old(out)@ + s@.take(k as int),
        decreases s@.len() - k,
    {
        out.push(s[k]);
        k = k + 1;
        assert(out@ =~= old(out)@ + s@.take(k as int));
    }
    assert(s@.take(s@.len() as int) =~= s@);
}

/// The cells joined by commas, as they stand.
pub fn join_commas(cells: &Vec<Vec<char>>) -> (r: Vec<char>)
    ensures
        r@ == joined(cells_view(cells@)),
{
    let mut out: Vec<char> = Vec::new();
    let mut i: usize = 0;
    while i < cells.len()
        invariant
            i <= cells@.len(),
            out@ == joined(cells_view(cells@.take(i as int))),
        decreases cells@.len() - i,
    {
        assert(cells_view(cells@.take(i + 1)).drop_last() =~= cells_view(cells@.take(i as int)));
        if i > 0 {
            out.push(',');
        }
        push_all(&mut out, cells[i].as_slice());
        i = i + 1;
        assert(cells_view(cells@.take(i as int)).last() == cells@[i - 1]@);
        assert(out@ =~= joined(cells_view(cells@.take(i as int))));
    }
    assert(cells@.take(cells@.len() as int) =~= cells@);
    out
}

/// One CSV line: each cell escaped, joined by commas.
pub fn csv_line(cells: &Vec<Vec<char>>) -> (r: Vec<char>)
    ensures
        r@ == joined(escaped_cells(cells_view(cells@))),
{
    let mut escaped: Vec<Vec<char>> = Vec::new();
    let mut i: usize = 0;
    while i < cells.len()
        invariant
            i <= cells@.len(),
            escaped@.len() == i,
            forall|j: int| 0 <= j < i ==> #[trigger] escaped@[j]@ == csv_escaped(cells@[j]@),
        decreases cells@.len() - i,
    {
        let e = csv_escape(cells[i].as_slice());
        escaped.push(e);
        i = i + 1;
    }
    assert(cells_view(escaped@) =~= escaped_cells(cells_view(cells@)));
    join_commas(&escaped)
}


/// Leading white space removed.
pub open spec fn trim_start(s: Seq<char>) -> Seq<char>
    decreases s.len(),
{
    if s.len() > 0 && is_white_space(s[0]) {
        trim_start(s.drop_first())
    } else {
        s
    }
}

/// Trailing white space removed.
pub open spec fn trim_end(s: Seq<char>) -> Seq<char>
    decreases s.len(),
{
    if s.len() > 0 && is_white_space(s.last()) {
        trim_end(s.drop_last())
    } else {
        s
    }
}

/// White space removed at both ends, as `str::trim` does.
pub open spec fn trim(s: Seq<char>) -> Seq<char> {
    trim_end(trim_start(s))
}

proof fn lemma_trim_start_from(s: Seq<char>, i: int)
    requires
        0 <= i <= s.len(),
        forall|j: int| 0 <= j < i ==> is_white_space(#[trigger] s[j]),
    ensures
        trim_start(s) == trim_start(s.subrange(i, s.len() as int)),
    decreases i,
{
    if i > 0 {
        assert(s.drop_first().subrange(i - 1, s.drop_first().len() as int) =~= s.subrange(i, s.len() as int));
        lemma_trim_start_from(s.drop_first(), i - 1);
    } else {
        assert(s.subrange(0, s.len() as int) =~= s);
    }
}

proof fn lemma_trim_end_to(s: Seq<char>, e: int)
    requires
        0 <= e <= s.len(),
        forall|j: int| e <= j < s.len() ==> is_white_space(#[trigger] s[j]),
    ensures
        trim_end(s) == trim_end(s.take(e)),
    decreases s.len() - e,
{
    if e < s.len() {
        assert(s.drop_last().take(e) =~= s.take(e));
        lemma_trim_end_to(s.drop_last(), e);
    } else {
        assert(s.take(e) =~= s);
    }
}

/// `str::trim`.
pub fn trim_chars(s: &[char]) -> (r: Vec<char>)
    ensures
        r@ == trim(s@),
{
    let n = s.len();
    let mut i: usize = 0;
    while i < n && char_is_white_space(s[i])
        invariant
            n == s@.len(),
            i <= n,
            forall|j: int| 0 <= j < i ==> is_white_space(#[trigger] s@[j]),
        decreases n - i,
    {
        i = i + 1;
    }
    proof {
        lemma_trim_start_from(s@, i as int);
    }
    let ghost t = s@.subrange(i as int, n as int);
    assert(!(t.len() > 0 && is_white_space(t[0])));
    let mut e: usize = n;
    while e > i && char_is_white_space(s[e - 1])
        invariant
            n == s@.len(),
            i <= e <= n,
            t == s@.subrange(i as int, n as int),
            forall|j: int| e - i <= j < t.len() ==> is_white_space(#[trigger] t[j]),
        decreases e,
    {
        e = e - 1;
    }
    proof {
        lemma_trim_end_to(t, e - i);
        assert(t.take(e - i) =~= s@.subrange(i as int, e as int));
    }
    let mut out: Vec<char> = Vec::new();
    let mut k: usize = i;
    while k < e
        invariant
            i <= k <= e <= n,
            n == s@.len(),
            out@ == s@.subrange(i as int, k as int),
        decreases e - k,
    {
        out.push(s[k]);
        k = k + 1;
        assert(out@ =~= s@.subrange(i as int, k as int));
    }
    out
}


/// The maximal runs of characters that are not white space, as `str::split_whitespace`
/// yields them.
pub open spec fn words(s: Seq<char>) -> Seq<Seq<char>>
    decreases s.len(),
{
    if s.len() == 0 {
        Seq::empty()
    } else {
        let w = words(s.drop_last());
        let c = s.last();
        if is_white_space(c) {
            w
        } else if s.len() >= 2 && !is_white_space(s[s.len() - 2]) {
            w.update(w.len() - 1, w.last().push(c))
        } else {
            w.push(seq![c])
        }
    }
}

proof fn lemma_words_nonempty_after_word_char(s: Seq<char>)
    requires
        s.len() > 0,
        !is_white_space(s.last()),
    ensures
        words(s).len() > 0,
    decreases s.len(),
{
    if s.len() >= 2 && !is_white_space(s[s.len() - 2]) {
        assert(s.drop_last().last() == s[s.len() - 2]);
        lemma_words_nonempty_after_word_char(s.drop_last());
    }
}

/// `str::split_whitespace`.
pub fn split_words(s: &[char]) -> (r: Vec<Vec<char>>)
    ensures
        cells_view(r@) == words(s@),
{
    let mut out: Vec<Vec<char>> = Vec::new();
    let mut cur: Vec<char> = Vec::new();
    let mut in_word = false;
    let mut i: usize = 0;
    while i < s.len()
        invariant
            i <= s@.len(),
            in_word == (i > 0 && !is_white_space(s@[i - 1])),
            in_word ==> cells_view(out@).push(cur@) == words(s@.take(i as int)),
            !in_word ==> cells_view(out@) == words(s@.take(i as int)),
        decreases s@.len() - i,
    {
        let c = s[i];
        let ghost pre = s@.take(i as int);
        assert(s@.take(i + 1).drop_last() =~= pre);
        if char_is_white_space(c) {
            if in_word {
                out.push(cur);
                cur = Vec::new();
                assert(cells_view(out@) =~= words(pre));
            }
            in_word = false;
        } else {
            if in_word {
                proof {
                    lemma_words_nonempty_after_word_char(pre);
                    assert(pre.last() == s@[i - 1]);
                }
                assert(s@.take(i + 1)[i - 1] == s@[i - 1]);
                cur.push(c);
                assert(cells_view(out@).push(cur@) =~= words(s@.take(i + 1)));
            } else {
                cur = Vec::new();
                cur.push(c);
                if i > 0 {
                    assert(s@.take(i + 1)[i - 1] == s@[i - 1]);
                }
                assert(cells_view(out@).push(cur@) =~= words(s@.take(i + 1)));
            }
            in_word = true;
        }
        i = i + 1;
    }
    if in_word {
        out.push(cur);
    }
    assert(s@.take(s@.len() as int) =~= s@);
    assert(cells_view(out@) =~= words(s@));
    out
}


/// The first position of `c` in `s`, or the length of `s` when it does not occur.
pub open spec fn first_pos(s: Seq<char>, c: char) -> int
    decreases s.len(),
{
    if s.len() == 0 {
        0
    } else {
        let f = first_pos(s.drop_last(), c);
        if f < s.len() - 1 {
            f
        } else if s.last() == c {
            s.len() - 1
        } else {
            s.len() as int
        }
    }
}

/// Position of the first `c`, or the length when there is none.
pub fn find_char(s: &[char], c: char) -> (r: usize)
    ensures
        r == first_pos(s@, c),
{
    let mut i: usize = 0;
    while i < s.len()
        invariant
            i <= s@.len(),
            first_pos(s@.take(i as int), c) == i,
        decreases s@.len() - i,
    {
        assert(s@.take(i + 1).drop_last() =~= s@.take(i as int));
        if s[i] == c {
            proof {
                lemma_first_pos_in_prefix(s@, c, i as int);
            }
            return i;
        }
        i = i + 1;
    }
    assert(s@.take(s@.len() as int) =~= s@);
    i
}

proof fn lemma_first_pos_in_prefix(s: Seq<char>, c: char, i: int)
    requires
        0 <= i < s.len(),
        s[i] == c,
        first_pos(s.take(i), c) == i,
    ensures
        first_pos(s, c) == i,
    decreases s.len(),
{
    if s.len() == i + 1 {
        assert(s.drop_last() =~= s.take(i));
    } else {
        assert(s.drop_last().take(i) =~= s.take(i));
        lemma_first_pos_in_prefix(s.drop_last(), c, i);
    }
}

/// `str::split_once`: the parts before and after the first `c`.
pub open spec fn split_at_first(s: Seq<char>, c: char) -> Option<(Seq<char>, Seq<char>)> {
    let f = first_pos(s, c);
    if f < s.len() {
        Some((s.take(f), s.skip(f + 1)))
    } else {
        None
    }
}

fn copy_range(s: &[char], from: usize, to: usize) -> (r: Vec<char>)
    requires
        from <= to <= s@.len(),
    ensures
        r@ == s@.subrange(from as int, to as int),
{
    let mut out: Vec<char> = Vec::new();
    let mut k: usize = from;
    while k < to
        invariant
            from <= k <= to <= s@.len(),
            out@ == s@.subrange(from as int, k as int),
        decreases to - k,
    {
        out.push(s[k]);
        k = k + 1;
        assert(out@ =~= s@.subrange(from as int, k as int));
    }
    out
}

/// `str::split_once` on one character.
pub fn split_once_char(s: &[char], c: char) -> (r: Option<(Vec<char>, Vec<char>)>)
    ensures
        match r {
            Some((a, b)) => split_at_first(s@, c) == Some((a@, b@)),
            None => split_at_first(s@, c) is None,
        },
{
    let f = find_char(s, c);
    if f < s.len() {
        let a = copy_range(s, 0, f);
        let b = copy_range(s, f + 1, s.len());
        assert(a@ =~= s@.take(f as int));
        assert(b@ =~= s@.skip(f + 1));
        Some((a, b))
    } else {
        None
    }
}

/// The `key=value` pairs among the words, in order; a word without `=` is passed over.
pub open spec fn key_values(ws: Seq<Seq<char>>) -> Seq<(Seq<char>, Seq<char>)>
    decreases ws.len(),
{
    if ws.len() == 0 {
        Seq::empty()
    } else {
        key_values(ws.drop_last()) + match split_at_first(ws.last(), '=') {
            Some(p) => seq![p],
            None => Seq::empty(),
        }
    }
}

/// The views of a sequence of pairs of character vectors.
pub open spec fn pairs_view(v: Seq<(Vec<char>, Vec<char>)>) -> Seq<(Seq<char>, Seq<char>)> {
    v.map_values(|p: (Vec<char>, Vec<char>)| (p.0@, p.1@))
}

/// The pairs of a metrics line such as `connect=0.01 total=1.90 code=200`: each
/// white-space separated word split at its first `=`. Words hold no white space, so
/// trimming the halves changes nothing.
pub fn parse_key_value_line(line: &[char]) -> (r: Vec<(Vec<char>, Vec<char>)>)
    ensures
        pairs_view(r@) == key_values(words(line@)),
{
    let ws = split_words(line);
    let mut out: Vec<(Vec<char>, Vec<char>)> = Vec::new();
    let mut i: usize = 0;
    while i < ws.len()
        invariant
            i <= ws@.len(),
            cells_view(ws@) == words(line@),
            pairs_view(out@) == key_values(cells_view(ws@).take(i as int)),
        decreases ws@.len() - i,
    {
        assert(cells_view(ws@).take(i + 1).drop_last() =~= cells_view(ws@).take(i as int));
        assert(cells_view(ws@).take(i + 1).last() == ws@[i as int]@);
        match split_once_char(ws[i].as_slice(), '=') {
            Some(p) => {
                out.push(p);
            },
            None => {},
        }
        i = i + 1;
        assert(pairs_view(out@) =~= key_values(cells_view(ws@).take(i as int)));
    }
    assert(cells_view(ws@).take(ws@.len() as int) =~= cells_view(ws@));
    out
}


/// Whether two character slices are the same.
pub fn same_chars(a: &[char], b: &[char]) -> (r: bool)
    ensures
        r == (a@ == b@),
{
    if a.len() != b.len() {
        return false;
    }
    let mut i: usize = 0;
    while i < a.len()
        invariant
            i <= a@.len(),
            a@.len() == b@.len(),
            forall|j: int| 0 <= j < i ==> a@[j] == b@[j],
        decreases a@.len() - i,
    {
        if a[i] != b[i] {
            return false;
        }
        i = i + 1;
    }
    assert(a@ =~= b@);
    true
}

/// The value stored under `key` when the pairs are inserted in order into a map: that
/// of the last pair with the key.
pub open spec fn value_for(pairs: Seq<(Seq<char>, Seq<char>)>, key: Seq<char>) -> Option<Seq<char>>
    decreases pairs.len(),
{
    if pairs.len() == 0 {
        None
    } else if pairs.last().0 == key {
        Some(pairs.last().1)
    } else {
        value_for(pairs.drop_last(), key)
    }
}

/// The value of `key` among the pairs, as a map filled in their order holds it.
pub fn lookup_value(pairs: &Vec<(Vec<char>, Vec<char>)>, key: &[char]) -> (r: Option<Vec<char>>)
    ensures
        match r {
            Some(v) => value_for(pairs_view(pairs@), key@) == Some(v@),
            None => value_for(pairs_view(pairs@), key@) is None,
        },
{
    let mut i: usize = pairs.len();
    assert(pairs_view(pairs@).take(i as int) =~= pairs_view(pairs@));
    while i > 0
        invariant
            i <= pairs@.len(),
            value_for(pairs_view(pairs@), key@) == value_for(pairs_view(pairs@).take(i as int), key@),
        decreases i,
    {
        let ghost pv = pairs_view(pairs@).take(i as int);
        assert(pv.drop_last() =~= pairs_view(pairs@).take(i - 1));
        if same_chars(pairs[i - 1].0.as_slice(), key) {
            let v = copy_range(pairs[i - 1].1.as_slice(), 0, pairs[i - 1].1.len());
            assert(v@ =~= pairs@[i - 1].1@);
            return Some(v);
        }
        i = i - 1;
    }
    None
}

/// The value of `key`, or nothing when it is missing.
pub fn field_or_empty(pairs: &Vec<(Vec<char>, Vec<char>)>, key: &[char]) -> (r: Vec<char>)
    ensures
        r@ == match value_for(pairs_view(pairs@), key@) {
            Some(v) => v,
            None => Seq::empty(),
        },
{
    match lookup_value(pairs, key) {
        Some(v) => v,
        None => Vec::new(),
    }
}


/// The pieces between the occurrences of `c`, as `str::split` yields them: one more
/// than there are occurrences.
pub open spec fn pieces(s: Seq<char>, c: char) -> Seq<Seq<char>>
    decreases s.len(),
{
    if s.len() == 0 {
        seq![Seq::empty()]
    } else {
        let p = pieces(s.drop_last(), c);
        if s.last() == c {
            p.push(Seq::empty())
        } else {
            p.update(p.len() - 1, p.last().push(s.last()))
        }
    }
}

proof fn lemma_pieces_len(s: Seq<char>, c: char)
    ensures
        pieces(s, c).len() >= 1,
    decreases s.len(),
{
    if s.len() > 0 {
        lemma_pieces_len(s.drop_last(), c);
    }
}

/// `str::split` on one character.
pub fn split_char(s: &[char], c: char) -> (r: Vec<Vec<char>>)
    ensures
        cells_view(r@) == pieces(s@, c),
{
    let mut out: Vec<Vec<char>> = Vec::new();
    let mut cur: Vec<char> = Vec::new();
    let mut i: usize = 0;
    while i < s.len()
        invariant
            i <= s@.len(),
            cells_view(out@).push(cur@) == pieces(s@.take(i as int), c),
        decreases s@.len() - i,
    {
        let ghost pre = s@.take(i as int);
        assert(s@.take(i + 1).drop_last() =~= pre);
        proof {
            lemma_pieces_len(pre, c);
        }
        if s[i] == c {
            out.push(cur);
            cur = Vec::new();
        } else {
            cur.push(s[i]);
        }
        i = i + 1;
        assert(cells_view(out@).push(cur@) =~= pieces(s@.take(i as int), c));
    }
    assert(s@.take(s@.len() as int) =~= s@);
    out.push(cur);
    out
}

/// A carriage return at the end removed.
pub open spec fn strip_cr(x: Seq<char>) -> Seq<char> {
    if x.len() > 0 && x.last() == '\r' {
        x.drop_last()
    } else {
        x
    }
}

/// The lines of a text, as `str::lines` yields them: split at each `\n`, a `\r` before
/// it removed, and no empty line after a final `\n`.
pub open spec fn lines_of(s: Seq<char>) -> Seq<Seq<char>> {
    let p = pieces(s, '\n');
    Seq::new((p.len() - 1) as nat, |j: int| strip_cr(p[j])) + if p.last().len() > 0 {
        seq![p.last()]
    } else {
        Seq::empty()
    }
}

fn strip_cr_vec(x: Vec<char>) -> (r: Vec<char>)
    ensures
        r@ == strip_cr(x@),
{
    let mut x = x;
    if x.len() > 0 && x[x.len() - 1] == '\r' {
        x.pop();
    }
    x
}

/// `str::lines`.
pub fn split_lines(s: &[char]) -> (r: Vec<Vec<char>>)
    ensures
        cells_view(r@) == lines_of(s@),
{
    let parts = split_char(s, '\n');
    proof {
        lemma_pieces_len(s@, '\n');
    }
    let ghost p = pieces(s@, '\n');
    let n = parts.len();
    let mut out: Vec<Vec<char>> = Vec::new();
    let mut i: usize = 0;
    while i + 1 < n
        invariant
            n == parts@.len(),
            n >= 1,
            cells_view(parts@) == p,
            i + 1 <= n,
            out@.len() == i,
            forall|j: int| 0 <= j < i ==> #[trigger] out@[j]@ == strip_cr(p[j]),
        decreases n - i,
    {
        let piece = copy_range(parts[i].as_slice(), 0, parts[i].len());
        assert(piece@ =~= p[i as int]);
        out.push(strip_cr_vec(piece));
        i = i + 1;
    }
    let ghost head = cells_view(out@);
    assert(head =~= Seq::new((p.len() - 1) as nat, |j: int| strip_cr(p[j])));
    if parts[n - 1].len() > 0 {
        let last = copy_range(parts[n - 1].as_slice(), 0, parts[n - 1].len());
        assert(last@ =~= p.last());
        out.push(last);
    }
    assert(cells_view(out@) =~= lines_of(s@));
    out
}


/// The first position at or after `i` where `pat` occurs in `s`.
pub open spec fn find_from(s: Seq<char>, pat: Seq<char>, i: int) -> Option<int>
    decreases s.len() + 1 - i,
{
    if i < 0 || i + pat.len() > s.len() {
        None
    } else if s.subrange(i, i + pat.len()) == pat {
        Some(i)
    } else {
        find_from(s, pat, i + 1)
    }
}

/// `str::find` of a pattern string.
pub fn find_text(s: &[char], pat: &[char]) -> (r: Option<usize>)
    ensures
        r matches Some(i) ==> find_from(s@, pat@, 0) == Some(i as int) && i + pat@.len() <= s@.len(),
        r is None ==> find_from(s@, pat@, 0) is None,
{
    let n = s.len();
    let m = pat.len();
    if m > n {
        return None;
    }
    let mut i: usize = 0;
    while i <= n - m
        invariant
            n == s@.len(),
            m == pat@.len(),
            m <= n,
            i <= n - m + 1,
            find_from(s@, pat@, 0) == find_from(s@, pat@, i as int),
        decreases n - i,
    {
        let mut k: usize = 0;
        let mut same = true;
        while k < m
            invariant
                n == s@.len(),
                m == pat@.len(),
                i + m <= n,
                k <= m,
                same == (forall|j: int| 0 <= j < k ==> s@[i + j] == pat@[j]),
            decreases m - k,
        {
            if s[i + k] != pat[k] {
                same = false;
            }
            k = k + 1;
        }
        if same {
            assert(s@.subrange(i as int, i + m) =~= pat@);
            return Some(i);
        }
        assert(s@.subrange(i as int, i + m)[0] == s@[i as int]);
        assert(s@.subrange(i as int, i + m) != pat@) by {
            let j = choose|j: int| 0 <= j < m && s@[i + j] != pat@[j];
            assert(s@.subrange(i as int, i + m)[j] == s@[i + j]);
        }
        i = i + 1;
    }
    None
}

/// The tag that starts an artifact line.
pub open spec fn artifact_tag() -> Seq<char> {
    "VALIDATION_ARTIFACT"@
}

/// The `key=value` fields after the tag, trimmed; none when a field lacks `=`.
pub open spec fn artifact_fields(parts: Seq<Seq<char>>) -> Option<Seq<(Seq<char>, Seq<char>)>>
    decreases parts.len(),
{
    if parts.len() == 0 {
        Some(Seq::empty())
    } else {
        match artifact_fields(parts.drop_last()) {
            None => None,
            Some(ps) => match split_at_first(parts.last(), '=') {
                Some((k, v)) => Some(ps.push((trim(k), trim(v)))),
                None => None,
            },
        }
    }
}

/// The fields of an artifact line: from the first `VALIDATION_ARTIFACT,`, trimmed and
/// split at commas; the first part must be the tag and every other part `key=value`.
pub open spec fn artifact_of_line(line: Seq<char>) -> Option<Seq<(Seq<char>, Seq<char>)>> {
    match find_from(line, artifact_tag().push(','), 0) {
        None => None,
        Some(at) => {
            let parts = pieces(trim(line.skip(at)), ',');
            if parts.len() == 0 || parts[0] != artifact_tag() {
                None
            } else {
                artifact_fields(parts.drop_first())
            }
        },
    }
}

/// The fields of the artifact that a node logged on this line, if it is one.
pub fn parse_validation_artifact_line(line: &[char]) -> (r: Option<Vec<(Vec<char>, Vec<char>)>>)
    ensures
        match r {
            Some(m) => artifact_of_line(line@) == Some(pairs_view(m@)),
            None => artifact_of_line(line@) is None,
        },
{
    let tag = chars_of("VALIDATION_ARTIFACT");
    let mut tag_comma = chars_of("VALIDATION_ARTIFACT");
    tag_comma.push(',');
    let at = match find_text(line, tag_comma.as_slice()) {
        None => return None,
        Some(at) => at,
    };
    let rest = copy_range(line, at, line.len());
    assert(rest@ =~= line@.skip(at as int));
    let t = trim_chars(rest.as_slice());
    let parts = split_char(t.as_slice(), ',');
    if parts.len() == 0 || !same_chars(parts[0].as_slice(), tag.as_slice()) {
        return None;
    }
    let ghost ps = cells_view(parts@).drop_first();
    assert(artifact_of_line(line@) == artifact_fields(ps));
    let mut out: Vec<(Vec<char>, Vec<char>)> = Vec::new();
    let mut i: usize = 1;
    while i < parts.len()
        invariant
            1 <= i <= parts@.len(),
            ps == cells_view(parts@).drop_first(),
            artifact_of_line(line@) == artifact_fields(ps),
            artifact_fields(ps.take(i - 1)) == Some(pairs_view(out@)),
        decreases parts@.len() - i,
    {
        assert(ps.take(i as int).drop_last() =~= ps.take(i - 1));
        assert(ps.take(i as int).last() == parts@[i as int]@);
        match split_once_char(parts[i].as_slice(), '=') {
            None => {
                proof {
                    lemma_fields_none_stays(ps, i as int);
                }
                return None;
            },
            Some((k, v)) => {
                let kt = trim_chars(k.as_slice());
                let vt = trim_chars(v.as_slice());
                out.push((kt, vt));
            },
        }
        i = i + 1;
        assert(pairs_view(out@) =~= pairs_view(out@).drop_last().push(pairs_view(out@).last()));
    }
    assert(ps.take(ps.len() as int) =~= ps);
    Some(out)
}

proof fn lemma_fields_none_stays(ps: Seq<Seq<char>>, i: int)
    requires
        0 < i <= ps.len(),
        artifact_fields(ps.take(i)) is None,
    ensures
        artifact_fields(ps) is None,
    decreases ps.len() - i,
{
    if i < ps.len() {
        assert(ps.take(i + 1).drop_last() =~= ps.take(i));
        lemma_fields_none_stays(ps, i + 1);
    } else {
        assert(ps.take(i) =~= ps);
    }
}


/// The artifact of the last line among `ls` that is one and names `site`.
pub open spec fn latest_artifact(ls: Seq<Seq<char>>, site: Seq<char>) -> Option<Seq<(Seq<char>, Seq<char>)>>
    decreases ls.len(),
{
    if ls.len() == 0 {
        None
    } else {
        match artifact_of_line(ls.last()) {
            Some(m) if value_for(m, "site"@) == Some(site) => Some(m),
            _ => latest_artifact(ls.drop_last(), site),
        }
    }
}

/// The latest artifact in a log text for the requested site.
pub fn find_artifact_for_site_in_text(text: &[char], site: &[char]) -> (r: Option<Vec<(Vec<char>, Vec<char>)>>)
    ensures
        match r {
            Some(m) => latest_artifact(lines_of(text@), site@) == Some(pairs_view(m@)),
            None => latest_artifact(lines_of(text@), site@) is None,
        },
{
    let ls = split_lines(text);
    let key = chars_of("site");
    let mut i: usize = ls.len();
    assert(cells_view(ls@).take(i as int) =~= cells_view(ls@));
    while i > 0
        invariant
            i <= ls@.len(),
            key@ == "site"@,
            latest_artifact(lines_of(text@), site@) == latest_artifact(cells_view(ls@).take(i as int), site@),
        decreases i,
    {
        let ghost pre = cells_view(ls@).take(i as int);
        assert(pre.drop_last() =~= cells_view(ls@).take(i - 1));
        assert(pre.last() == ls@[i - 1]@);
        if let Some(m) = parse_validation_artifact_line(ls[i - 1].as_slice()) {
            if let Some(v) = lookup_value(&m, key.as_slice()) {
                if same_chars(v.as_slice(), site) {
                    return Some(m);
                }
            }
        }
        i = i - 1;
    }
    None
}


/// The state of a CSV scan: finished rows, the row being read, the cell being read,
/// and whether the scan is inside quotes.
pub struct CsvScan {
    pub rows: Seq<Seq<Seq<char>>>,
    pub row: Seq<Seq<char>>,
    pub cur: Seq<char>,
    pub in_quotes: bool,
}

/// A carriage return at the end of the row's last cell removed.
pub open spec fn strip_last_cr(row: Seq<Seq<char>>) -> Seq<Seq<char>> {
    if row.len() > 0 {
        row.update(row.len() - 1, strip_cr(row.last()))
    } else {
        row
    }
}

/// The scan from position `i` on: a quote toggles quoting, or inside quotes and
/// followed by another quote stands for one quote; outside quotes a comma ends the
/// cell and a line feed the row; anything else joins the cell.
pub open spec fn csv_scan(s: Seq<char>, i: int, st: CsvScan) -> CsvScan
    decreases s.len() + 1 - i,
{
    if i < 0 || i >= s.len() {
        st
    } else {
        let ch = s[i];
        if ch == '"' {
            if st.in_quotes && i + 1 < s.len() && s[i + 1] == '"' {
                csv_scan(s, i + 2, CsvScan { cur: st.cur.push('"'), ..st })
            } else {
                csv_scan(s, i + 1, CsvScan { in_quotes: !st.in_quotes, ..st })
            }
        } else if ch == ',' && !st.in_quotes {
            csv_scan(s, i + 1, CsvScan { row: st.row.push(st.cur), cur: Seq::empty(), ..st })
        } else if ch == '\n' && !st.in_quotes {
            csv_scan(
                s,
                i + 1,
                CsvScan {
                    rows: st.rows.push(strip_last_cr(st.row.push(st.cur))),
                    row: Seq::empty(),
                    cur: Seq::empty(),
                    in_quotes: false,
                },
            )
        } else {
            csv_scan(s, i + 1, CsvScan { cur: st.cur.push(ch), ..st })
        }
    }
}

/// The rows once the text ends: a pending cell or row becomes the last row.
pub open spec fn csv_finish(st: CsvScan) -> Seq<Seq<Seq<char>>> {
    if st.cur.len() > 0 || st.row.len() > 0 {
        st.rows.push(strip_last_cr(st.row.push(st.cur)))
    } else {
        st.rows
    }
}

/// Every cell is white space only.
pub open spec fn blank_row(r: Seq<Seq<char>>) -> bool {
    forall|j: int| 0 <= j < r.len() ==> #[trigger] trim(r[j]).len() == 0
}

/// The rows that hold some text.
pub open spec fn nonblank_rows(rows: Seq<Seq<Seq<char>>>) -> Seq<Seq<Seq<char>>>
    decreases rows.len(),
{
    if rows.len() == 0 {
        Seq::empty()
    } else {
        nonblank_rows(rows.drop_last()) + if blank_row(rows.last()) {
            Seq::empty()
        } else {
            seq![rows.last()]
        }
    }
}

/// The rows of a CSV text.
pub open spec fn csv_rows(s: Seq<char>) -> Seq<Seq<Seq<char>>> {
    nonblank_rows(
        csv_finish(csv_scan(s, 0, CsvScan { rows: Seq::empty(), row: Seq::empty(), cur: Seq::empty(), in_quotes: false })),
    )
}

/// The views of rows of cells.
pub open spec fn rows_view(v: Seq<Vec<Vec<char>>>) -> Seq<Seq<Seq<char>>> {
    v.map_values(|r: Vec<Vec<char>>| cells_view(r@))
}

fn strip_row_cr(row: &mut Vec<Vec<char>>)
    requires
        old(row)@.len() > 0,
    ensures
        cells_view(final(row)@) == strip_last_cr(cells_view(old(row)@)),
{
    let last = row.pop().unwrap();
    let last = strip_cr_vec(last);
    row.push(last);
    assert(cells_view(row@) =~= strip_last_cr(cells_view(old(row)@)));
}

fn is_blank_row(r: &Vec<Vec<char>>) -> (b: bool)
    ensures
        b == blank_row(cells_view(r@)),
{
    let mut i: usize = 0;
    while i < r.len()
        invariant
            i <= r@.len(),
            forall|j: int| 0 <= j < i ==> #[trigger] trim(r@[j]@).len() == 0,
        decreases r@.len() - i,
    {
        let t = trim_chars(r[i].as_slice());
        if t.len() > 0 {
            assert(cells_view(r@)[i as int] == r@[i as int]@);
            return false;
        }
        i = i + 1;
    }
    assert forall|j: int| 0 <= j < cells_view(r@).len() implies #[trigger] trim(cells_view(r@)[j]).len() == 0 by {
        assert(cells_view(r@)[j] == r@[j]@);
    }
    true
}

fn copy_row(r: &Vec<Vec<char>>) -> (c: Vec<Vec<char>>)
    ensures
        cells_view(c@) == cells_view(r@),
{
    let mut out: Vec<Vec<char>> = Vec::new();
    let mut i: usize = 0;
    while i < r.len()
        invariant
            i <= r@.len(),
            out@.len() == i,
            forall|j: int| 0 <= j < i ==> #[trigger] out@[j]@ == r@[j]@,
        decreases r@.len() - i,
    {
        out.push(copy_range(r[i].as_slice(), 0, r[i].len()));
        i = i + 1;
    }
    assert(cells_view(out@) =~= cells_view(r@));
    out
}

/// Parse a CSV text into rows of cells, dropping rows that are blank.
pub fn parse_csv(content: &[char]) -> (r: Vec<Vec<Vec<char>>>)
    ensures
        rows_view(r@) == csv_rows(content@),
{
    let n = content.len();
    let mut rows: Vec<Vec<Vec<char>>> = Vec::new();
    let mut row: Vec<Vec<char>> = Vec::new();
    let mut cur: Vec<char> = Vec::new();
    let mut in_quotes = false;
    let ghost init = CsvScan { rows: Seq::empty(), row: Seq::empty(), cur: Seq::empty(), in_quotes: false };
    let mut i: usize = 0;
    assert(rows_view(rows@) =~= Seq::empty());
    assert(cells_view(row@) =~= Seq::empty());
    while i < n
        invariant
            n == content@.len(),
            i <= n,
            csv_scan(content@, 0, init) == csv_scan(
                content@,
                i as int,
                CsvScan { rows: rows_view(rows@), row: cells_view(row@), cur: cur@, in_quotes },
            ),
        decreases n - i,
    {
        let ghost st0 = CsvScan { rows: rows_view(rows@), row: cells_view(row@), cur: cur@, in_quotes };
        let ghost i0 = i as int;
        let ch = content[i];
        if ch == '"' {
            if in_quotes && i + 1 < n && content[i + 1] == '"' {
                cur.push('"');
                i = i + 2;
                assert(csv_scan(content@, i0, st0) == csv_scan(content@, i0 + 2, CsvScan { cur: st0.cur.push('"'), ..st0 }));
            } else {
                in_quotes = !in_quotes;
                i = i + 1;
            }
        } else if ch == ',' && !in_quotes {
            let cell = cur;
            cur = Vec::new();
            row.push(cell);
            i = i + 1;
            assert(cells_view(row@) =~= st0.row.push(st0.cur));
            assert(cur@ =~= Seq::<char>::empty());
        } else if ch == '\n' && !in_quotes {
            let cell = cur;
            cur = Vec::new();
            row.push(cell);
            assert(cells_view(row@) =~= st0.row.push(st0.cur));
            strip_row_cr(&mut row);
            let done = row;
            row = Vec::new();
            rows.push(done);
            i = i + 1;
            assert(rows_view(rows@) =~= st0.rows.push(strip_last_cr(st0.row.push(st0.cur))));
            assert(cells_view(row@) =~= Seq::empty());
            assert(cur@ =~= Seq::<char>::empty());
        } else {
            cur.push(ch);
            i = i + 1;
        }
    }
    let ghost st_end = CsvScan { rows: rows_view(rows@), row: cells_view(row@), cur: cur@, in_quotes };
    assert(csv_scan(content@, 0, init) == st_end);
    if cur.len() > 0 || row.len() > 0 {
        row.push(cur);
        assert(cells_view(row@) =~= st_end.row.push(st_end.cur));
        strip_row_cr(&mut row);
        rows.push(row);
        assert(rows_view(rows@) =~= st_end.rows.push(strip_last_cr(st_end.row.push(st_end.cur))));
    }
    let ghost scanned = csv_finish(csv_scan(content@, 0, init));
    assert(rows_view(rows@) =~= scanned);
    let mut out: Vec<Vec<Vec<char>>> = Vec::new();
    let mut k: usize = 0;
    while k < rows.len()
        invariant
            k <= rows@.len(),
            rows_view(rows@) == scanned,
            rows_view(out@) == nonblank_rows(scanned.take(k as int)),
        decreases rows@.len() - k,
    {
        assert(scanned.take(k + 1).drop_last() =~= scanned.take(k as int));
        assert(scanned.take(k + 1).last() == cells_view(rows@[k as int]@));
        if !is_blank_row(&rows[k]) {
            let copy = copy_row(&rows[k]);
            out.push(copy);
        }
        k = k + 1;
        assert(rows_view(out@) =~= nonblank_rows(scanned.take(k as int)));
    }
    assert(scanned.take(scanned.len() as int) =~= scanned);
    out
}


/// The column whose trimmed header is `key`; the last one when several are.
pub open spec fn column_of(header: Seq<Seq<char>>, key: Seq<char>) -> Option<int>
    decreases header.len(),
{
    if header.len() == 0 {
        None
    } else if trim(header.last()) == key {
        Some(header.len() - 1)
    } else {
        column_of(header.drop_last(), key)
    }
}

/// The column of `key` in a header row.
pub fn column_index(header: &Vec<Vec<char>>, key: &[char]) -> (r: Option<usize>)
    ensures
        match r {
            Some(i) => column_of(cells_view(header@), key@) == Some(i as int),
            None => column_of(cells_view(header@), key@) is None,
        },
{
    let mut i: usize = header.len();
    assert(cells_view(header@).take(i as int) =~= cells_view(header@));
    while i > 0
        invariant
            i <= header@.len(),
            column_of(cells_view(header@), key@) == column_of(cells_view(header@).take(i as int), key@),
        decreases i,
    {
        let ghost pre = cells_view(header@).take(i as int);
        assert(pre.drop_last() =~= cells_view(header@).take(i - 1));
        assert(pre.last() == header@[i - 1]@);
        let t = trim_chars(header[i - 1].as_slice());
        if same_chars(t.as_slice(), key) {
            return Some(i - 1);
        }
        i = i - 1;
    }
    None
}

/// The trimmed cell of a row under the column of `key`, when it is there and not empty.
pub open spec fn field_of(row: Seq<Seq<char>>, header: Seq<Seq<char>>, key: Seq<char>) -> Option<Seq<char>> {
    match column_of(header, key) {
        None => None,
        Some(i) => if i < row.len() && trim(row[i]).len() > 0 {
            Some(trim(row[i]))
        } else {
            None
        },
    }
}

/// The trimmed, non-empty cell of `row` under the column of `key` in `header`.
pub fn csv_field(row: &Vec<Vec<char>>, header: &Vec<Vec<char>>, key: &[char]) -> (r: Option<Vec<char>>)
    ensures
        match r {
            Some(v) => field_of(cells_view(row@), cells_view(header@), key@) == Some(v@),
            None => field_of(cells_view(row@), cells_view(header@), key@) is None,
        },
{
    match column_index(header, key) {
        None => None,
        Some(i) => {
            if i < row.len() {
                let t = trim_chars(row[i].as_slice());
                assert(cells_view(row@)[i as int] == row@[i as int]@);
                if t.len() > 0 {
                    Some(t)
                } else {
                    None
                }
            } else {
                None
            }
        },
    }
}

/// The value of decimal digits.
pub open spec fn digits_value(d: Seq<char>) -> nat
    decreases d.len(),
{
    if d.len() == 0 {
        0
    } else {
        digits_value(d.drop_last()) * 10 + ((d.last() as u32) - ('0' as u32)) as nat
    }
}

/// ASCII decimal digits only.
pub open spec fn all_digits(d: Seq<char>) -> bool {
    forall|j: int| 0 <= j < d.len() ==> '0' <= #[trigger] d[j] <= '9'
}

/// The number `u16::from_str` reads: an optional `+`, then at least one digit, and a
/// value that fits.
pub open spec fn u16_of_text(s: Seq<char>) -> Option<u16> {
    let d = if s.len() > 0 && s[0] == '+' {
        s.drop_first()
    } else {
        s
    };
    if d.len() > 0 && all_digits(d) && digits_value(d) <= 65535 {
        Some(digits_value(d) as u16)
    } else {
        None
    }
}

/// `str::parse::<u16>` of an optional text.
pub fn parse_u16(s: Option<&[char]>) -> (r: Option<u16>)
    ensures
        r == match s {
            Some(t) => u16_of_text(t@),
            None => None,
        },
{
    let t = match s {
        None => return None,
        Some(t) => t,
    };
    let start: usize = if t.len() > 0 && t[0] == '+' {
        1
    } else {
        0
    };
    let ghost d = t@.skip(start as int);
    assert(d =~= if t@.len() > 0 && t@[0] == '+' {
        t@.drop_first()
    } else {
        t@
    });
    if start >= t.len() {
        return None;
    }
    let mut acc: u32 = 0;
    let mut i: usize = start;
    while i < t.len()
        invariant
            start <= i <= t@.len(),
            s == Some(t),
            d == t@.skip(start as int),
            d == (if t@.len() > 0 && t@[0] == '+' {
                t@.drop_first()
            } else {
                t@
            }),
            all_digits(t@.subrange(start as int, i as int)),
            acc == if digits_value(t@.subrange(start as int, i as int)) <= 65535 {
                digits_value(t@.subrange(start as int, i as int))
            } else {
                65536
            },
        decreases t@.len() - i,
    {
        let c = t[i];
        if c < '0' || c > '9' {
            assert(d[i - start] == c);
            assert(!('0' <= d[i - start] <= '9'));
            assert(!all_digits(d));
            return None;
        }
        let digit = (c as u32) - ('0' as u32);
        assert(t@.subrange(start as int, i + 1).drop_last() =~= t@.subrange(start as int, i as int));
        let next = acc * 10 + digit;
        if next > 65535 {
            acc = 65536;
        } else {
            acc = next;
        }
        i = i + 1;
    }
    assert(t@.subrange(start as int, t@.len() as int) =~= d);
    if acc <= 65535 {
        Some(acc as u16)
    } else {
        None
    }
}


/// Counts of the status codes seen and of those that mean success (1 to 399).
#[derive(Debug)]
pub struct SuccessAgg {
    pub code_present_n: u64,
    pub success_n: u64,
}

impl SuccessAgg {
    /// No code seen yet.
    pub fn new() -> (r: Self)
        ensures
            r.code_present_n == 0,
            r.success_n == 0,
    {
        SuccessAgg { code_present_n: 0, success_n: 0 }
    }

    /// Count a row's status code, if it has one.
    pub fn push_code(&mut self, code: Option<u16>)
        requires
            old(self).code_present_n < u64::MAX,
            old(self).success_n < u64::MAX,
        ensures
            final(self).code_present_n == old(self).code_present_n + if code is Some { 1int } else { 0 },
            final(self).success_n == old(self).success_n + match code {
                Some(c) => if 0 < c < 400 { 1int } else { 0 },
                None => 0,
            },
    {
        if let Some(c) = code {
            self.code_present_n = self.code_present_n + 1;
            if c < 400 && c > 0 {
                self.success_n = self.success_n + 1;
            }
        }
    }
}

/// Leading slashes removed.
pub open spec fn without_leading_slashes(p: Seq<char>) -> Seq<char>
    decreases p.len(),
{
    if p.len() > 0 && p[0] == '/' {
        without_leading_slashes(p.drop_first())
    } else {
        p
    }
}

/// The URL a measurement requests: the path always starts with exactly one slash.
pub open spec fn request_url(scheme: Seq<char>, site: Seq<char>, port: u16, path: Seq<char>) -> Seq<char> {
    scheme + "://"@ + site + ":"@ + dec_chars(port as nat) + "/"@ + without_leading_slashes(path)
}

fn push_dec_chars(out: &mut Vec<char>, x: u64)
    ensures
        final(out)@ == old(out)@ + dec_chars(x as nat),
{
    let mut digits: Vec<u8> = Vec::new();
    push_dec_u64(&mut digits, x);
    assert(digits@ =~= dec_text(x as nat));
    let mut k: usize = 0;
    while k < digits.len()
        invariant
            k <= digits@.len(),
            digits@ == dec_text(x as nat),
            out@ == old(out)@ + ascii_chars(digits@.take(k as int)),
        decreases digits@.len() - k,
    {
        out.push(digits[k] as char);
        k = k + 1;
        assert(out@ =~= old(out)@ + ascii_chars(digits@.take(k as int)));
    }
    assert(digits@.take(digits@.len() as int) =~= digits@);
}

/// The URL of a measurement request.
pub fn curl_url(scheme: &str, site: &str, port: u16, request_path: &str) -> (r: Vec<char>)
    ensures
        r@ == request_url(scheme@, site@, port, request_path@),
{
    let path = chars_of(request_path);
    let mut start: usize = 0;
    assert(path@.skip(0) =~= path@);
    while start < path.len() && path[start] == '/'
        invariant
            start <= path@.len(),
            without_leading_slashes(path@) == without_leading_slashes(path@.skip(start as int)),
        decreases path@.len() - start,
    {
        assert(path@.skip(start as int).drop_first() =~= path@.skip(start + 1));
        start = start + 1;
    }
    let mut out = chars_of(scheme);
    push_all(&mut out, chars_of("://").as_slice());
    push_all(&mut out, chars_of(site).as_slice());
    push_all(&mut out, chars_of(":").as_slice());
    push_dec_chars(&mut out, port as u64);
    push_all(&mut out, chars_of("/").as_slice());
    let rest = copy_range(path.as_slice(), start, path.len());
    assert(rest@ =~= path@.skip(start as int));
    push_all(&mut out, rest.as_slice());
    out
}

/// Where the overlay request is sent instead of the site: `site:port:127.0.0.1:local`.
pub fn connect_to_text(site: &str, port: u16, overlay_port: u16) -> (r: Vec<char>)
    ensures
        r@ == site@ + ":"@ + dec_chars(port as nat) + ":127.0.0.1:"@ + dec_chars(overlay_port as nat),
{
    let mut out = chars_of(site);
    push_all(&mut out, chars_of(":").as_slice());
    push_dec_chars(&mut out, port as u64);
    push_all(&mut out, chars_of(":127.0.0.1:").as_slice());
    push_dec_chars(&mut out, overlay_port as u64);
    out
}

/// The first line that is not blank, trimmed; nothing when there is none.
pub open spec fn first_nonblank(ls: Seq<Seq<char>>) -> Seq<char>
    decreases ls.len(),
{
    if ls.len() == 0 {
        Seq::empty()
    } else if trim(ls[0]).len() > 0 {
        trim(ls[0])
    } else {
        first_nonblank(ls.drop_first())
    }
}

/// The metrics line of a measurement's output: its first non-blank line, trimmed.
pub fn metrics_line(output: &[char]) -> (r: Vec<char>)
    ensures
        r@ == first_nonblank(lines_of(output@)),
{
    let ls = split_lines(output);
    let mut i: usize = 0;
    assert(cells_view(ls@).skip(0) =~= cells_view(ls@));
    while i < ls.len()
        invariant
            i <= ls@.len(),
            cells_view(ls@) == lines_of(output@),
            first_nonblank(lines_of(output@)) == first_nonblank(cells_view(ls@).skip(i as int)),
        decreases ls@.len() - i,
    {
        let ghost rest = cells_view(ls@).skip(i as int);
        assert(rest.drop_first() =~= cells_view(ls@).skip(i + 1));
        assert(rest[0] == ls@[i as int]@);
        let t = trim_chars(ls[i].as_slice());
        if t.len() > 0 {
            return t;
        }
        i = i + 1;
    }
    Vec::new()
}


/// The value, or nothing when there is none.
pub open spec fn or_empty(v: Option<Seq<char>>) -> Seq<char> {
    match v {
        Some(x) => x,
        None => Seq::empty(),
    }
}

/// An artifact's value for `key`; nothing without an artifact.
pub open spec fn artifact_value(a: Option<Seq<(Seq<char>, Seq<char>)>>, key: Seq<char>) -> Seq<char> {
    match a {
        Some(m) => or_empty(value_for(m, key)),
        None => Seq::empty(),
    }
}

/// The columns of the measurement CSV.
pub open spec fn measurement_columns() -> Seq<Seq<char>> {
    seq![
        "site"@, "mode"@, "exit"@, "route"@, "connect"@, "appconnect"@, "starttransfer"@, "total"@, "code"@,
        "resp_bytes"@, "frames_sent"@, "avg_inflight"@, "max_inflight"@, "retransmit_rate"@, "throughput_bps"@,
        "ack_latency_ms_avg"@,
    ]
}

/// One measurement: the site and mode, the timings and status of the request, and the
/// route and transfer figures that the client logged for it (blank without an artifact).
pub open spec fn measurement_row(
    site: Seq<char>,
    mode: Seq<char>,
    metrics: Seq<(Seq<char>, Seq<char>)>,
    artifact: Option<Seq<(Seq<char>, Seq<char>)>>,
) -> Seq<Seq<char>> {
    seq![
        site,
        mode,
        artifact_value(artifact, "exit"@),
        artifact_value(artifact, "route"@),
        or_empty(value_for(metrics, "connect"@)),
        or_empty(value_for(metrics, "appconnect"@)),
        or_empty(value_for(metrics, "starttransfer"@)),
        or_empty(value_for(metrics, "total"@)),
        or_empty(value_for(metrics, "code"@)),
        artifact_value(artifact, "resp_bytes"@),
        artifact_value(artifact, "frames_sent"@),
        artifact_value(artifact, "avg_inflight"@),
        artifact_value(artifact, "max_inflight"@),
        artifact_value(artifact, "retransmit_rate"@),
        artifact_value(artifact, "throughput_bps"@),
        artifact_value(artifact, "ack_latency_ms_avg"@),
    ]
}

/// The header row of the measurement CSV.
pub fn measurement_header() -> (r: Vec<Vec<char>>)
    ensures
        cells_view(r@) == measurement_columns(),
{
    let mut r: Vec<Vec<char>> = Vec::new();
    r.push(chars_of("site"));
    r.push(chars_of("mode"));
    r.push(chars_of("exit"));
    r.push(chars_of("route"));
    r.push(chars_of("connect"));
    r.push(chars_of("appconnect"));
    r.push(chars_of("starttransfer"));
    r.push(chars_of("total"));
    r.push(chars_of("code"));
    r.push(chars_of("resp_bytes"));
    r.push(chars_of("frames_sent"));
    r.push(chars_of("avg_inflight"));
    r.push(chars_of("max_inflight"));
    r.push(chars_of("retransmit_rate"));
    r.push(chars_of("throughput_bps"));
    r.push(chars_of("ack_latency_ms_avg"));
    assert(cells_view(r@) =~= measurement_columns());
    r
}

fn artifact_field(artifact: Option<&Vec<(Vec<char>, Vec<char>)>>, key: &str) -> (r: Vec<char>)
    ensures
        r@ == artifact_value(
            match artifact {
                Some(m) => Some(pairs_view(m@)),
                None => None,
            },
            key@,
        ),
{
    match artifact {
        Some(m) => field_or_empty(m, chars_of(key).as_slice()),
        None => Vec::new(),
    }
}

/// The CSV row of one measurement.
pub fn measurement_row_cells(
    site: &str,
    mode: &str,
    metrics: &Vec<(Vec<char>, Vec<char>)>,
    artifact: Option<&Vec<(Vec<char>, Vec<char>)>>,
) -> (r: Vec<Vec<char>>)
    ensures
        cells_view(r@) == measurement_row(
            site@,
            mode@,
            pairs_view(metrics@),
            match artifact {
                Some(m) => Some(pairs_view(m@)),
                None => None,
            },
        ),
{
    let mut r: Vec<Vec<char>> = Vec::new();
    r.push(chars_of(site));
    r.push(chars_of(mode));
    r.push(artifact_field(artifact, "exit"));
    r.push(artifact_field(artifact, "route"));
    r.push(field_or_empty(metrics, chars_of("connect").as_slice()));
    r.push(field_or_empty(metrics, chars_of("appconnect").as_slice()));
    r.push(field_or_empty(metrics, chars_of("starttransfer").as_slice()));
    r.push(field_or_empty(metrics, chars_of("total").as_slice()));
    r.push(field_or_empty(metrics, chars_of("code").as_slice()));
    r.push(artifact_field(artifact, "resp_bytes"));
    r.push(artifact_field(artifact, "frames_sent"));
    r.push(artifact_field(artifact, "avg_inflight"));
    r.push(artifact_field(artifact, "max_inflight"));
    r.push(artifact_field(artifact, "retransmit_rate"));
    r.push(artifact_field(artifact, "throughput_bps"));
    r.push(artifact_field(artifact, "ack_latency_ms_avg"));
    assert(cells_view(r@) =~= measurement_row(
        site@,
        mode@,
        pairs_view(metrics@),
        match artifact {
            Some(m) => Some(pairs_view(m@)),
            None => None,
        },
    ));
    r
}


proof fn lemma_doubled_quotes_add(a: Seq<char>, b: Seq<char>)
    ensures
        doubled_quotes(a + b) == doubled_quotes(a) + doubled_quotes(b),
    decreases b.len(),
{
    if b.len() == 0 {
        assert(a + b =~= a);
        assert(doubled_quotes(a) + doubled_quotes(b) =~= doubled_quotes(a));
    } else {
        assert((a + b).drop_last() =~= a + b.drop_last());
        lemma_doubled_quotes_add(a, b.drop_last());
        assert((a + b).last() == b.last());
        assert(doubled_quotes(a + b) =~= doubled_quotes(a) + doubled_quotes(b));
    }
}

/// Scanning an unquoted cell appends its characters one by one.
proof fn lemma_scan_plain(s: Seq<char>, i: int, c: Seq<char>, st: CsvScan, k: int)
    requires
        0 <= i,
        0 <= k <= c.len(),
        i + c.len() <= s.len(),
        s.subrange(i, i + c.len()) == c,
        !needs_quotes(c),
        st.cur == Seq::<char>::empty(),
    ensures
        csv_scan(s, i, st) == csv_scan(s, i + k, CsvScan { cur: c.take(k), ..st }),
    decreases k,
{
    if k == 0 {
        assert(c.take(0) =~= Seq::<char>::empty());
        assert(CsvScan { cur: c.take(0), ..st } == st);
    } else {
        lemma_scan_plain(s, i, c, st, k - 1);
        let x = c[k - 1];
        assert(s[i + k - 1] == s.subrange(i, i + c.len())[k - 1]);
        assert(!c.contains(x) || (x != ',' && x != '"' && x != '\n' && x != '\r'));
        assert(c.contains(x));
        assert(c.take(k - 1).push(x) =~= c.take(k));
    }
}

/// Inside quotes, a doubled quote stands for one quote and any other character joins
/// the cell.
proof fn lemma_scan_quoted_inner(s: Seq<char>, i: int, c: Seq<char>, st: CsvScan, k: int)
    requires
        0 <= i,
        0 <= k <= c.len(),
        i + doubled_quotes(c).len() <= s.len(),
        s.subrange(i, i + doubled_quotes(c).len()) == doubled_quotes(c),
        st.cur == Seq::<char>::empty(),
        st.in_quotes,
    ensures
        csv_scan(s, i, st) == csv_scan(
            s,
            i + doubled_quotes(c.take(k)).len(),
            CsvScan { cur: c.take(k), ..st },
        ),
    decreases k,
{
    if k == 0 {
        assert(c.take(0) =~= Seq::<char>::empty());
        assert(CsvScan { cur: c.take(0), ..st } == st);
    } else {
        lemma_scan_quoted_inner(s, i, c, st, k - 1);
        let x = c[k - 1];
        let pre = c.take(k - 1);
        let p = i + doubled_quotes(pre).len();
        assert(c.take(k).drop_last() =~= pre);
        assert(c.take(k).last() == x);
        lemma_doubled_quotes_add(c.take(k), c.skip(k));
        assert(c.take(k) + c.skip(k) =~= c);
        let dk = doubled_quotes(c.take(k));
        assert(dk == doubled_quotes(pre) + if x == '"' {
            seq!['"', '"']
        } else {
            seq![x]
        });
        assert(doubled_quotes(c) == dk + doubled_quotes(c.skip(k)));
        assert(s[p] == doubled_quotes(c)[p - i]);
        assert(pre.push(x) =~= c.take(k));
        if x == '"' {
            assert(s[p + 1] == doubled_quotes(c)[p + 1 - i]);
            assert(s[p] == '"' && s[p + 1] == '"');
        } else {
            assert(s[p] == x);
        }
    }
}

/// Scanning an escaped cell outside quotes, followed by a comma or a line feed, reads
/// exactly the cell and leaves the scan outside quotes right after it.
proof fn lemma_scan_cell(s: Seq<char>, i: int, c: Seq<char>, st: CsvScan)
    requires
        0 <= i,
        i + csv_escaped(c).len() < s.len(),
        s.subrange(i, i + csv_escaped(c).len()) == csv_escaped(c),
        s[i + csv_escaped(c).len()] == ',' || s[i + csv_escaped(c).len()] == '\n',
        st.cur == Seq::<char>::empty(),
        !st.in_quotes,
    ensures
        csv_scan(s, i, st) == csv_scan(s, i + csv_escaped(c).len(), CsvScan { cur: c, ..st }),
{
    if !needs_quotes(c) {
        lemma_scan_plain(s, i, c, st, c.len() as int);
        assert(c.take(c.len() as int) =~= c);
    } else {
        let d = doubled_quotes(c);
        let e = csv_escaped(c);
        assert(e == seq!['"'] + d + seq!['"']);
        assert(s[i] == e[0]);
        let st1 = CsvScan { in_quotes: true, ..st };
        assert(csv_scan(s, i, st) == csv_scan(s, i + 1, st1));
        assert(s.subrange(i + 1, i + 1 + d.len()) =~= d) by {
            assert forall|j: int| 0 <= j < d.len() implies #[trigger] s.subrange(i + 1, i + 1 + d.len())[j] == d[j] by {
                assert(s[i + 1 + j] == s.subrange(i, i + e.len())[1 + j]);
            }
        }
        lemma_scan_quoted_inner(s, i + 1, c, st1, c.len() as int);
        assert(c.take(c.len() as int) =~= c);
        let q = i + 1 + d.len();
        assert(s[q] == s.subrange(i, i + e.len())[q - i]);
        assert(s[q] == '"');
        assert(q + 1 == i + e.len());
        let st2 = CsvScan { cur: c, ..st1 };
        assert(csv_scan(s, q, st2) == csv_scan(s, q + 1, CsvScan { in_quotes: false, ..st2 }));
        assert(CsvScan { in_quotes: false, ..st2 } == CsvScan { cur: c, ..st });
    }
}

proof fn lemma_joined_step(l: Seq<Seq<char>>, j: int)
    requires
        1 <= j < l.len(),
    ensures
        joined(l.take(j + 1)) == joined(l.take(j)) + seq![','] + l[j],
{
    assert(l.take(j + 1).drop_last() =~= l.take(j));
    assert(l.take(j + 1).last() == l[j]);
}

proof fn lemma_joined_prefix(l: Seq<Seq<char>>, j: int)
    requires
        1 <= j <= l.len(),
    ensures
        joined(l.take(j)).len() <= joined(l).len(),
        joined(l).take(joined(l.take(j)).len() as int) == joined(l.take(j)),
    decreases l.len() - j,
{
    if j == l.len() {
        assert(l.take(j) =~= l);
        assert(joined(l).take(joined(l).len() as int) =~= joined(l));
    } else {
        lemma_joined_prefix(l, j + 1);
        lemma_joined_step(l, j);
        let a = joined(l.take(j));
        let b = joined(l.take(j + 1));
        assert(joined(l).take(a.len() as int) =~= b.take(a.len() as int));
        assert(b.take(a.len() as int) =~= a);
    }
}

/// One CSV line: the escaped cells joined by commas, and a line feed.
pub open spec fn csv_line_text(cells: Seq<Seq<char>>) -> Seq<char> {
    joined(escaped_cells(cells)).push('\n')
}

/// CSV lines for each row, one after the other.
pub open spec fn csv_text(rows: Seq<Seq<Seq<char>>>) -> Seq<char>
    decreases rows.len(),
{
    if rows.len() == 0 {
        Seq::empty()
    } else {
        csv_text(rows.drop_last()) + csv_line_text(rows.last())
    }
}

/// A row that survives writing and reading: it has a cell, and its last cell does not
/// end in a carriage return (which reads as part of the line ending).
pub open spec fn csv_writable_row(cells: Seq<Seq<char>>) -> bool {
    cells.len() > 0 && !(cells.last().len() > 0 && cells.last().last() == '\r')
}

/// A line of escaped cells, ended by a line feed, reads back as those cells: what the
/// measurement tool writes is what the report tool reads. A row that is blank is
/// dropped, and a carriage return ending the last cell is taken for a line ending, so
/// those two are left out.
pub proof fn lemma_csv_line_reads_back(cells: Seq<Seq<char>>)
    requires
        cells.len() > 0,
        !blank_row(cells),
        !(cells.last().len() > 0 && cells.last().last() == '\r'),
    ensures
        csv_rows(joined(escaped_cells(cells)).push('\n')) == seq![cells],
{
    let rows = seq![cells];
    assert(rows.drop_last() =~= Seq::<Seq<Seq<char>>>::empty());
    assert(rows.last() == cells);
    assert(csv_text(Seq::<Seq<Seq<char>>>::empty()) =~= Seq::<char>::empty());
    assert(csv_text(rows) =~= joined(escaped_cells(cells)).push('\n'));
    lemma_csv_text_reads_back(rows);
    assert(nonblank_rows(Seq::<Seq<Seq<char>>>::empty()) == Seq::<Seq<Seq<char>>>::empty());
    assert(nonblank_rows(rows) =~= seq![cells]);
}

/// Rows written as CSV lines, one after the other, read back as those rows, save the
/// blank ones: cells with commas, quotes or line breaks survive. A row needs a cell, and
/// its last cell may not end in a carriage return (that reads as part of the line end).
pub proof fn lemma_csv_text_reads_back(rows: Seq<Seq<Seq<char>>>)
    requires
        forall|i: int| 0 <= i < rows.len() ==> #[trigger] csv_writable_row(rows[i]),
    ensures
        csv_rows(csv_text(rows)) == nonblank_rows(rows),
{
    let t = csv_text(rows);
    let init = CsvScan { rows: Seq::empty(), row: Seq::empty(), cur: Seq::empty(), in_quotes: false };
    lemma_scan_lines(rows, rows.len() as int);
    assert(rows.take(rows.len() as int) =~= rows);
    let end = CsvScan { rows: rows, row: Seq::empty(), cur: Seq::empty(), in_quotes: false };
    assert(csv_scan(t, t.len() as int, end) == end);
    assert(csv_finish(end) == rows);
}

proof fn lemma_csv_text_prefix(rows: Seq<Seq<Seq<char>>>, k: int)
    requires
        0 <= k <= rows.len(),
    ensures
        csv_text(rows.take(k)).len() <= csv_text(rows).len(),
        csv_text(rows).take(csv_text(rows.take(k)).len() as int) == csv_text(rows.take(k)),
    decreases rows.len() - k,
{
    if k == rows.len() {
        assert(rows.take(k) =~= rows);
        assert(csv_text(rows).take(csv_text(rows).len() as int) =~= csv_text(rows));
    } else {
        lemma_csv_text_prefix(rows, k + 1);
        assert(rows.take(k + 1).drop_last() =~= rows.take(k));
        assert(rows.take(k + 1).last() == rows[k]);
        let a = csv_text(rows.take(k));
        let b = csv_text(rows.take(k + 1));
        assert(b == a + csv_line_text(rows[k]));
        assert(csv_text(rows).take(a.len() as int) =~= b.take(a.len() as int));
        assert(b.take(a.len() as int) =~= a);
    }
}

/// After the first `k` lines, the scan holds exactly those rows and nothing pending.
proof fn lemma_scan_lines(rows: Seq<Seq<Seq<char>>>, k: int)
    requires
        0 <= k <= rows.len(),
        forall|i: int| 0 <= i < rows.len() ==> #[trigger] csv_writable_row(rows[i]),
    ensures
        csv_scan(
            csv_text(rows),
            0,
            CsvScan { rows: Seq::empty(), row: Seq::empty(), cur: Seq::empty(), in_quotes: false },
        ) == csv_scan(
            csv_text(rows),
            csv_text(rows.take(k)).len() as int,
            CsvScan { rows: rows.take(k), row: Seq::empty(), cur: Seq::empty(), in_quotes: false },
        ),
    decreases k,
{
    let t = csv_text(rows);
    if k == 0 {
        assert(rows.take(0) =~= Seq::<Seq<Seq<char>>>::empty());
    } else {
        lemma_scan_lines(rows, k - 1);
        lemma_csv_text_prefix(rows, k);
        let cells = rows[k - 1];
        assert(csv_writable_row(rows[k - 1]));
        assert(rows.take(k).drop_last() =~= rows.take(k - 1));
        assert(rows.take(k).last() == cells);
        let p = csv_text(rows.take(k - 1)).len() as int;
        let line = csv_line_text(cells);
        assert(csv_text(rows.take(k)) == csv_text(rows.take(k - 1)) + line);
        assert(t.subrange(p, p + line.len()) =~= line) by {
            assert forall|i: int| 0 <= i < line.len() implies #[trigger] t.subrange(p, p + line.len())[i] == line[i] by {
                assert(t[p + i] == t.take(csv_text(rows.take(k)).len() as int)[p + i]);
                assert(csv_text(rows.take(k))[p + i] == line[i]);
            }
        }
        lemma_scan_line_at(t, p, cells, rows.take(k - 1));
        let n = cells.len() as int;
        assert(cells.take(n - 1).push(cells[n - 1]) =~= cells);
        assert(strip_last_cr(cells) =~= cells);
        assert(rows.take(k - 1).push(cells) =~= rows.take(k));
    }
}

/// Scanning one whole line of escaped cells at position `p`, with nothing pending, adds
/// its row.
proof fn lemma_scan_line_at(s: Seq<char>, p: int, cells: Seq<Seq<char>>, rows0: Seq<Seq<Seq<char>>>)
    requires
        cells.len() > 0,
        0 <= p,
        p + csv_line_text(cells).len() <= s.len(),
        s.subrange(p, p + csv_line_text(cells).len()) == csv_line_text(cells),
    ensures
        csv_scan(s, p, CsvScan { rows: rows0, row: Seq::empty(), cur: Seq::empty(), in_quotes: false }) == csv_scan(
            s,
            p + csv_line_text(cells).len(),
            CsvScan {
                rows: rows0.push(strip_last_cr(cells.take(cells.len() - 1).push(cells[cells.len() - 1]))),
                row: Seq::empty(),
                cur: Seq::empty(),
                in_quotes: false,
            },
        ),
{
    let l = escaped_cells(cells);
    let n = cells.len() as int;
    lemma_reads_cells(s, p, cells, rows0, n);
    let last = CsvScan { rows: rows0, row: cells.take(n - 1), cur: cells[n - 1], in_quotes: false };
    let pn = joined(l.take(n)).len() as int;
    assert(l.take(n) =~= l);
    let done = CsvScan {
        rows: rows0.push(strip_last_cr(cells.take(n - 1).push(cells[n - 1]))),
        row: Seq::empty(),
        cur: Seq::empty(),
        in_quotes: false,
    };
    assert(csv_scan(s, p + pn, last) == csv_scan(s, p + pn + 1, done));
}

/// After the `j`-th cell of a line at position `p`, the scan holds the cells before it in
/// the row and the cell itself as the current one.
proof fn lemma_reads_cells(s: Seq<char>, p: int, cells: Seq<Seq<char>>, rows0: Seq<Seq<Seq<char>>>, j: int)
    requires
        1 <= j <= cells.len(),
        0 <= p,
        p + csv_line_text(cells).len() <= s.len(),
        s.subrange(p, p + csv_line_text(cells).len()) == csv_line_text(cells),
    ensures
        ({
            let l = escaped_cells(cells);
            let pj = joined(l.take(j)).len() as int;
            &&& pj < csv_line_text(cells).len()
            &&& s[p + pj] == if j < cells.len() {
                ','
            } else {
                '\n'
            }
            &&& csv_scan(s, p, CsvScan { rows: rows0, row: Seq::empty(), cur: Seq::empty(), in_quotes: false })
                == csv_scan(s, p + pj, CsvScan { rows: rows0, row: cells.take(j - 1), cur: cells[j - 1], in_quotes: false })
        }),
    decreases j,
{
    let l = escaped_cells(cells);
    let t = csv_line_text(cells);
    let init = CsvScan { rows: rows0, row: Seq::empty(), cur: Seq::empty(), in_quotes: false };
    let pj = joined(l.take(j)).len() as int;
    assert forall|k: int| 0 <= k < t.len() implies #[trigger] s[p + k] == t[k] by {
        assert(s.subrange(p, p + t.len())[k] == s[p + k]);
    }
    lemma_joined_prefix(l, j);
    if j < cells.len() {
        lemma_joined_prefix(l, j + 1);
        lemma_joined_step(l, j);
        let b = joined(l.take(j + 1));
        assert(s[p + pj] == t[pj]);
        assert(t[pj] == joined(l)[pj]);
        assert(joined(l)[pj] == b[pj]);
    } else {
        assert(l.take(j) =~= l);
        assert(s[p + pj] == t[pj]);
    }
    if j == 1 {
        let c = cells[0];
        assert(l.take(1) =~= seq![l[0]]);
        assert(joined(l.take(1)) == l[0]);
        assert(l[0] == csv_escaped(c));
        assert(s.subrange(p, p + pj) =~= csv_escaped(c)) by {
            assert forall|k: int| 0 <= k < pj implies #[trigger] s.subrange(p, p + pj)[k] == csv_escaped(c)[k] by {
                assert(s[p + k] == t[k]);
                assert(t[k] == joined(l)[k]);
                assert(joined(l)[k] == joined(l).take(pj)[k]);
            }
        }
        lemma_scan_cell(s, p, c, init);
        assert(cells.take(0) =~= Seq::<Seq<char>>::empty());
        assert(CsvScan { cur: c, ..init } == CsvScan { rows: rows0, row: cells.take(0), cur: cells[0], in_quotes: false });
    } else {
        lemma_reads_cells(s, p, cells, rows0, j - 1);
        let pp = joined(l.take(j - 1)).len() as int;
        let prev = CsvScan { rows: rows0, row: cells.take(j - 2), cur: cells[j - 2], in_quotes: false };
        lemma_joined_step(l, j - 1);
        let c = cells[j - 1];
        assert(l[j - 1] == csv_escaped(c));
        let mid = CsvScan { rows: rows0, row: cells.take(j - 1), cur: Seq::empty(), in_quotes: false };
        assert(cells.take(j - 2).push(cells[j - 2]) =~= cells.take(j - 1));
        assert(s[p + pp] == ',');
        assert(csv_scan(s, p + pp, prev) == csv_scan(s, p + pp + 1, mid));
        assert(pj == pp + 1 + csv_escaped(c).len());
        assert(s.subrange(p + pp + 1, p + pj) =~= csv_escaped(c)) by {
            assert forall|k: int| 0 <= k < csv_escaped(c).len() implies #[trigger] s.subrange(p + pp + 1, p + pj)[k]
                == csv_escaped(c)[k] by {
                assert(s[p + pp + 1 + k] == t[pp + 1 + k]);
                assert(t[pp + 1 + k] == joined(l)[pp + 1 + k]);
                assert(joined(l)[pp + 1 + k] == joined(l).take(pj)[pp + 1 + k]);
                assert(joined(l.take(j)) == joined(l.take(j - 1)) + seq![','] + csv_escaped(c));
            }
        }
        lemma_scan_cell(s, p + pp + 1, c, mid);
        assert(CsvScan { cur: c, ..mid } == CsvScan { rows: rows0, row: cells.take(j - 1), cur: cells[j - 1], in_quotes: false });
    }
}

} // verus!
