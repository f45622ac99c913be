//! Locating the tabular part of a statement: preamble lines, the header
//! row and the delimiter.

use vstd::prelude::*;
use crate::amount::find_char;
use crate::headers::{
    alias_texts, amount_aliases, balance_aliases, best_header, credit_aliases, date_aliases,
    debit_aliases, description_aliases, suggest_columns, texts_of,
};
use crate::profile::{ImportError};
use crate::text::{chars_equal, chars_of, slice_chars, string_from_chars, trim, trim_chars};

verus! {

/// `s` after its first `n` lines (everything after the `n`-th newline;
/// empty when there are fewer newlines).
pub open spec fn skip_lines(s: Seq<char>, n: nat) -> Seq<char>
    decreases n,
{
    if n == 0 {
        s
    } else {
        let i = find_char(s, '\n');
        if i < s.len() {
            skip_lines(s.skip(i + 1), (n - 1) as nat)
        } else {
            Seq::empty()
        }
    }
}

proof fn lemma_skip_lines_empty(n: nat)
    ensures
        skip_lines(Seq::<char>::empty(), n) == Seq::<char>::empty(),
    decreases n,
{
    if n > 0 {
        assert(find_char(Seq::<char>::empty(), '\n') == 0);
    }
}

proof fn lemma_find_char_bound(s: Seq<char>, c: char)
    ensures
        0 <= find_char(s, c) <= s.len(),
        find_char(s, c) < s.len() ==> s[find_char(s, c)] == c,
    decreases s.len(),
{
    if s.len() > 0 && s[0] != c {
        lemma_find_char_bound(s.drop_first(), c);
    }
}

fn find_char_from(s: &Vec<char>, start: usize, c: char) -> (r: usize)
    requires
        start <= s.len(),
    ensures
        start + find_char(s@.skip(start as int), c) == r,
        start <= r <= s.len(),
        r < s.len() ==> s@[r as int] == c,
{
    let mut i: usize = start;
    while i < s.len() && s[i] != c
        invariant
            start <= i <= s.len(),
            find_char(s@.skip(start as int), c) == (i - start) + find_char(s@.skip(i as int), c),
        decreases s.len() - i,
    {
        assert(s@.skip(i as int).drop_first() =~= s@.skip(i + 1));
        i = i + 1;
    }
    proof {
        lemma_find_char_bound(s@.skip(i as int), c);
        if i < s.len() {
            assert(s@.skip(i as int)[0] == s@[i as int]);
        }
    }
    i
}

/// Drops the first `count` lines of `source`.
pub fn skip_leading_lines(source: &Vec<char>, count: usize) -> (r: Vec<char>)
    ensures
        r@ == skip_lines(source@, count as nat),
{
    let mut start: usize = 0;
    let mut k: usize = 0;
    assert(source@.skip(0) =~= source@);
    while k < count
        invariant
            k <= count,
            start <= source.len(),
            skip_lines(source@, count as nat) == skip_lines(
                source@.skip(start as int),
                (count - k) as nat,
            ),
        decreases count - k,
    {
        if start == source.len() {
            proof {
                assert(source@.skip(start as int) =~= Seq::<char>::empty());
                lemma_skip_lines_empty((count - k) as nat);
            }
            return Vec::new();
        }
        let i = find_char_from(source, start, '\n');
        if i < source.len() {
            assert(source@.skip(start as int).skip(i - start + 1) =~= source@.skip(i + 1));
            start = i + 1;
        } else {
            return Vec::new();
        }
        k = k + 1;
    }
    slice_chars(source, start, source.len())
}

/// The lines of `s` as `str::lines` yields them: split at `\n`, a `\r`
/// before the `\n` removed, no empty line after a final newline.
pub open spec fn lines(s: Seq<char>) -> Seq<Seq<char>>
    decreases s.len(),
{
    if s.len() == 0 {
        Seq::empty()
    } else {
        let i = find_char(s, '\n');
        if 0 <= i < s.len() {
            let line = s.take(i);
            let line = if line.len() > 0 && line.last() == '\r' {
                line.drop_last()
            } else {
                line
            };
            seq![line] + lines(s.skip(i + 1))
        } else {
            seq![s]
        }
    }
}

proof fn lemma_lines_len(s: Seq<char>)
    ensures
        lines(s).len() <= s.len(),
    decreases s.len(),
{
    if s.len() > 0 {
        let i = find_char(s, '\n');
        lemma_find_char_bound(s, '\n');
        if i < s.len() {
            lemma_lines_len(s.skip(i + 1));
        }
    }
}

/// The first `n` lines of `s` (all of them when there are fewer).
pub fn first_lines(s: &Vec<char>, n: usize) -> (r: Vec<Vec<char>>)
    ensures
        r@.map_values(|l: Vec<char>| l@) == lines(s@).take(
            if n <= lines(s@).len() {
                n as int
            } else {
                lines(s@).len() as int
            },
        ),
{
    let mut out: Vec<Vec<char>> = Vec::new();
    let mut start: usize = 0;
    assert(s@.skip(0) =~= s@);
    while out.len() < n && start < s.len()
        invariant
            start <= s.len(),
            out.len() <= n,
            lines(s@) == out@.map_values(|l: Vec<char>| l@) + lines(s@.skip(start as int)),
        decreases s.len() - start,
    {
        let ghost rest = s@.skip(start as int);
        let i = find_char_from(s, start, '\n');
        proof {
            lemma_find_char_bound(rest, '\n');
        }
        let mut end: usize = i;
        if end > start && s[end - 1] == '\r' && i < s.len() {
            end = end - 1;
        }
        let line = slice_chars(s, start, end);
        let ghost old_out = out@.map_values(|l: Vec<char>| l@);
        out.push(line);
        if i < s.len() {
            proof {
                assert(rest.take(i - start) =~= s@.subrange(start as int, i as int));
                if end < i {
                    assert(rest.take(i - start).drop_last() =~= s@.subrange(
                        start as int,
                        end as int,
                    ));
                }
                assert(rest.skip(i - start + 1) =~= s@.skip(i + 1));
                assert(out@.map_values(|l: Vec<char>| l@) =~= old_out.push(line@));
            }
            start = i + 1;
        } else {
            proof {
                assert(rest =~= s@.subrange(start as int, s.len() as int));
                assert(s@.skip(s.len() as int) =~= Seq::<char>::empty());
                assert(out@.map_values(|l: Vec<char>| l@) =~= old_out.push(line@));
            }
            start = s.len();
        }
    }
    proof {
        let all = lines(s@);
        let got = out@.map_values(|l: Vec<char>| l@);
        if start == s.len() {
            assert(s@.skip(start as int) =~= Seq::<char>::empty());
            assert(all =~= got);
        }
        assert(all.take(got.len() as int) =~= got);
    }
    out
}

/// Pieces of `s` between occurrences of `c` (`str::split` with a char).
pub open spec fn split_on(s: Seq<char>, c: char) -> Seq<Seq<char>>
    decreases s.len(),
{
    let i = find_char(s, c);
    if 0 <= i < s.len() {
        seq![s.take(i)] + split_on(s.skip(i + 1), c)
    } else {
        seq![s]
    }
}

/// `s` without leading and trailing double quotes.
pub open spec fn trim_quotes(s: Seq<char>) -> Seq<char>
    decreases s.len(),
{
    if s.len() > 0 && s[0] == '"' {
        trim_quotes(s.drop_first())
    } else if s.len() > 0 && s.last() == '"' {
        trim_quotes(s.drop_last())
    } else {
        s
    }
}

fn trim_quotes_exec(s: &Vec<char>) -> (r: Vec<char>)
    ensures
        r@ == trim_quotes(s@),
{
    let mut a: usize = 0;
    let mut b: usize = s.len();
    assert(s@.subrange(0, s.len() as int) =~= s@);
    while a < b && (s[a] == '"' || s[b - 1] == '"')
        invariant
            a <= b <= s.len(),
            trim_quotes(s@) == trim_quotes(s@.subrange(a as int, b as int)),
        decreases b - a,
    {
        if s[a] == '"' {
            assert(s@.subrange(a as int, b as int).drop_first() =~= s@.subrange(a + 1, b as int));
            a = a + 1;
        } else {
            assert(s@.subrange(a as int, b as int).drop_last() =~= s@.subrange(a as int, b - 1));
            b = b - 1;
        }
    }
    slice_chars(s, a, b)
}

/// The cells of a candidate header line split at `c`, each trimmed of
/// white space and quotes.
pub open spec fn header_cells(line: Seq<char>, c: char) -> Seq<Seq<char>> {
    split_on(line, c).map_values(|f: Seq<char>| trim_quotes(trim(f)))
}

fn header_cells_exec(line: &Vec<char>, c: char) -> (r: Vec<String>)
    ensures
        texts_of(r@) == header_cells(line@, c),
{
    let mut out: Vec<String> = Vec::new();
    let mut start: usize = 0;
    assert(line@.skip(0) =~= line@);
    loop
        invariant
            start <= line.len(),
            header_cells(line@, c) == texts_of(out@) + header_cells(line@.skip(start as int), c),
        decreases line.len() - start,
    {
        let ghost rest = line@.skip(start as int);
        let i = find_char_from(line, start, c);
        let piece = slice_chars(line, start, i);
        let cell = trim_quotes_exec(&trim_chars(&piece));
        let ghost before = texts_of(out@);
        out.push(string_from_chars(&cell));
        proof {
            lemma_find_char_bound(rest, c);
            assert(rest.take(i - start) =~= piece@);
            assert(texts_of(out@) =~= before.push(cell@));
        }
        if i < line.len() {
            proof {
                assert(rest.skip(i - start + 1) =~= line@.skip(i + 1));
                assert(header_cells(rest, c) =~= seq![cell@] + header_cells(line@.skip(i + 1), c));
                assert(texts_of(out@) + header_cells(line@.skip(i + 1), c) =~= before
                    + header_cells(rest, c));
            }
            start = i + 1;
        } else {
            proof {
                assert(header_cells(rest, c) =~= seq![cell@]);
                assert(texts_of(out@) =~= before + header_cells(rest, c));
                assert(header_cells(line@, c) == texts_of(out@));
            }
            return out;
        }
    }
}

pub open spec fn found_nonempty(cells: Seq<Seq<char>>, aliases: Seq<&str>) -> bool {
    match best_header(cells, alias_texts(aliases), cells.len() as int) {
        Some((i, _)) => cells[i].len() > 0,
        None => false,
    }
}

pub open spec fn found_any(cells: Seq<Seq<char>>, aliases: Seq<&str>) -> bool {
    best_header(cells, alias_texts(aliases), cells.len() as int) is Some
}

/// How many of date, description, amount and balance a header row maps.
pub open spec fn semantic_fields(cells: Seq<Seq<char>>) -> int {
    (if found_nonempty(cells, date_aliases()) {
        1int
    } else {
        0
    }) + (if found_nonempty(cells, description_aliases()) {
        1int
    } else {
        0
    }) + (if found_any(cells, amount_aliases()) || found_any(cells, debit_aliases()) || found_any(
        cells,
        credit_aliases(),
    ) {
        1int
    } else {
        0
    }) + (if found_any(cells, balance_aliases()) {
        1int
    } else {
        0
    })
}

/// Score of reading `line` as a header with delimiter `c`: recognized
/// fields count a thousand each, then the number of cells. `None` for
/// fewer than two cells.
pub open spec fn header_score(line: Seq<char>, c: char) -> Option<int> {
    let cells = header_cells(line, c);
    if cells.len() < 2 {
        None
    } else {
        Some(semantic_fields(cells) * 1000 + cells.len())
    }
}

/// The delimiters tried, in order.
pub open spec fn delimiter_candidates() -> Seq<char> {
    seq![';', '\t', ',', '|']
}

/// The best `(score, line, delimiter)` among the first `n` candidate pairs
/// (line-major, delimiters in candidate order); a later pair replaces the
/// best only with a strictly higher score.
pub open spec fn best_header_row(ls: Seq<Seq<char>>, n: int) -> Option<(int, int, char)>
    decreases n,
{
    if n <= 0 {
        None
    } else {
        let prev = best_header_row(ls, n - 1);
        let line = (n - 1) / 4;
        let c = delimiter_candidates()[(n - 1) % 4];
        match header_score(ls[line], c) {
            Some(s) => if prev matches Some((best, _, _)) && s <= best {
                prev
            } else {
                Some((s, line, c))
            },
            None => prev,
        }
    }
}

/// Among the first twelve lines, the header line and delimiter that map the
/// most transaction fields (then the most cells); the first such pair wins.
pub open spec fn detected_header(source: Seq<char>) -> Option<(int, char)> {
    let all = lines(source);
    let ls = all.take(
        if all.len() <= 12 {
            all.len() as int
        } else {
            12
        },
    );
    match best_header_row(ls, (ls.len() * 4) as int) {
        Some((_, line, c)) => Some((line, c)),
        None => None,
    }
}

proof fn lemma_best_header_index(headers: Seq<Seq<char>>, aliases: Seq<Seq<char>>, n: int)
    ensures
        best_header(headers, aliases, n) matches Some((i, _)) ==> 0 <= i < n,
    decreases n,
{
    if n > 0 {
        lemma_best_header_index(headers, aliases, n - 1);
    }
}

fn count_found(cells: &Vec<String>) -> (r: u32)
    ensures
        r == semantic_fields(texts_of(cells@)),
{
    let m = suggest_columns(cells.as_slice());
    proof {
        let t = texts_of(cells@);
        assert(t.len() == cells@.len());
        match best_header(t, alias_texts(date_aliases()), t.len() as int) {
            Some((i, _)) => {
                lemma_best_header_index(t, alias_texts(date_aliases()), t.len() as int);
                assert(t[i] == cells@[i]@);
            },
            None => {},
        }
        match best_header(t, alias_texts(description_aliases()), t.len() as int) {
            Some((i, _)) => {
                lemma_best_header_index(t, alias_texts(description_aliases()), t.len() as int);
                assert(t[i] == cells@[i]@);
            },
            None => {},
        }
    }
    let date: u32 = if m.date.as_str().is_empty() { 0 } else { 1 };
    let description: u32 = if m.description.as_str().is_empty() { 0 } else { 1 };
    let amount: u32 = if m.amount.is_some() || m.debit.is_some() || m.credit.is_some() {
        1
    } else {
        0
    };
    let balance: u32 = if m.balance.is_some() { 1 } else { 0 };
    date + description + amount + balance
}

fn candidate_list() -> (r: Vec<char>)
    ensures
        r@ == delimiter_candidates(),
{
    let mut v: Vec<char> = Vec::new();
    v.push(';');
    v.push('\t');
    v.push(',');
    v.push('|');
    assert(v@ =~= delimiter_candidates());
    v
}

/// Finds the statement's header line (among the first twelve) and its
/// delimiter; `InvalidDelimiter` when no line splits into two or more cells.
pub fn detect_header_row(source: &Vec<char>) -> (r: Result<(usize, u8), ImportError>)
    ensures
        match r {
            Ok((l, d)) => detected_header(source@) matches Some((line, c)) && l as int == line
                && d == c as u8 && (c == ';' || c == '\t' || c == ',' || c == '|'),
            Err(e) => detected_header(source@) is None && e == ImportError::InvalidDelimiter,
        },
{
    let ls = first_lines(source, 12);
    let ghost all = lines(source@);
    let ghost lts = ls@.map_values(|l: Vec<char>| l@);
    let cands = candidate_list();
    let total: usize = ls.len() * 4;
    let mut best: Option<(u128, usize, char)> = None;
    for n in 0..total
        invariant
            total == ls.len() * 4,
            ls.len() <= 12,
            cands@ == delimiter_candidates(),
            lts == ls@.map_values(|l: Vec<char>| l@),
            match best_header_row(lts, n as int) {
                Some((sc, line, c)) => best == Some((sc as u128, line as usize, c)) && 0 <= sc
                    && sc < u128::MAX && 0 <= line < ls.len() && (c == ';' || c == '\t' || c
                    == ',' || c == '|'),
                None => best is None,
            },
    {
        let li: usize = n / 4;
        let di: usize = n % 4;
        let c: char = cands[di];
        let cells = header_cells_exec(&ls[li], c);
        assert(lts[li as int] == ls@[li as int]@);
        if cells.len() >= 2 {
            let found: u32 = count_found(&cells);
            let score: u128 = found as u128 * 1000 + cells.len() as u128;
            let replace = match best {
                Some((b, _, _)) => score > b,
                None => true,
            };
            if replace {
                best = Some((score, li, c));
            }
        }
    }
    proof {
        let take_n = if all.len() <= 12 {
            all.len() as int
        } else {
            12
        };
        assert(lts == all.take(take_n));
    }
    match best {
        Some((_, line, c)) => Ok((line, c as u8)),
        None => Err(ImportError::InvalidDelimiter),
    }
}

/// The first line whose trimmed text is not empty (empty when none is).
pub open spec fn first_nonblank(ls: Seq<Seq<char>>) -> Seq<char>
    decreases ls.len(),
{
    if ls.len() == 0 {
        Seq::empty()
    } else if trim(ls[0]).len() > 0 {
        ls[0]
    } else {
        first_nonblank(ls.drop_first())
    }
}

/// The candidate occurring most often in `header`, the last one among
/// equals (`Iterator::max_by_key`), over the first `n >= 1` candidates.
pub open spec fn most_frequent_candidate(header: Seq<char>, n: int) -> char
    decreases n,
{
    if n <= 1 {
        delimiter_candidates()[0]
    } else {
        let prev = most_frequent_candidate(header, n - 1);
        let c = delimiter_candidates()[n - 1];
        if crate::amount::count_char(header, c) >= crate::amount::count_char(header, prev) {
            c
        } else {
            prev
        }
    }
}

/// The delimiter a profile setting stands for: the configured character, or
/// for `auto` the candidate that occurs most often in the first non-blank
/// line (provided it occurs there).
pub open spec fn resolved_delimiter(configured: Seq<char>, source: Seq<char>) -> Option<u8> {
    if configured != "auto"@ {
        let bytes = vstd::utf8::encode_utf8(configured);
        if bytes.len() == 0 {
            None
        } else {
            Some(bytes[0])
        }
    } else {
        let header = first_nonblank(lines(source));
        let best = most_frequent_candidate(header, 4);
        if crate::amount::count_char(header, best) > 0 {
            Some(best as u8)
        } else {
            None
        }
    }
}

fn count_in(s: &Vec<char>, c: char) -> (r: usize)
    ensures
        r == crate::amount::count_char(s@, c),
{
    let mut n: usize = 0;
    for k in 0..s.len()
        invariant
            n == crate::amount::count_char(s@.take(k as int), c),
            n <= k,
    {
        assert(s@.take(k + 1).drop_last() =~= s@.take(k as int));
        if s[k] == c {
            n = n + 1;
        }
    }
    assert(s@.take(s.len() as int) =~= s@);
    n
}

/// The delimiter byte to split the statement with.
pub fn resolve_delimiter(configured: &str, source: &Vec<char>) -> (r: Result<u8, ImportError>)
    ensures
        match resolved_delimiter(configured@, source@) {
            Some(c) => r == Ok::<u8, ImportError>(c),
            None => r == Err::<u8, ImportError>(ImportError::InvalidDelimiter),
        },
{
    let configured_chars = chars_of(configured);
    if !chars_equal(&configured_chars, &chars_of("auto")) {
        let bytes = configured.as_bytes();
        if bytes.len() == 0 {
            return Err(ImportError::InvalidDelimiter);
        }
        return Ok(bytes[0]);
    }
    let ls = first_lines(source, source.len());
    let ghost lts = ls@.map_values(|l: Vec<char>| l@);
    proof {
        lemma_lines_len(source@);
        assert(lines(source@).take(lines(source@).len() as int) =~= lines(source@));
        assert(lts == lines(source@));
    }
    let mut k: usize = 0;
    assert(lts.skip(0) =~= lts);
    while k < ls.len() && trim_chars(&ls[k]).len() == 0
        invariant
            k <= ls.len(),
            lts == ls@.map_values(|l: Vec<char>| l@),
            lts == lines(source@),
            first_nonblank(lts) == first_nonblank(lts.skip(k as int)),
        decreases ls.len() - k,
    {
        assert(lts.skip(k as int).drop_first() =~= lts.skip(k + 1));
        assert(lts.skip(k as int)[0] == ls@[k as int]@);
        k = k + 1;
    }
    let header: Vec<char> = if k < ls.len() {
        proof {
            assert(lts.skip(k as int)[0] == ls@[k as int]@);
        }
        slice_chars(&ls[k], 0, ls[k].len())
    } else {
        Vec::new()
    };
    proof {
        if k < ls.len() {
            assert(header@ =~= ls@[k as int]@);
        } else {
            assert(lts.skip(k as int) =~= Seq::<Seq<char>>::empty());
            assert(header@ =~= Seq::<char>::empty());
        }
    }
    let cands = candidate_list();
    let mut best: char = cands[0];
    let mut best_count: usize = count_in(&header, best);
    for i in 1..4
        invariant
            cands@ == delimiter_candidates(),
            best == most_frequent_candidate(header@, i as int),
            best_count == crate::amount::count_char(header@, best),
    {
        let c = cands[i];
        let n = count_in(&header, c);
        if n >= best_count {
            best = c;
            best_count = n;
        }
    }
    if best_count > 0 {
        Ok(best as u8)
    } else {
        Err(ImportError::InvalidDelimiter)
    }
}

} // verus!
