//! Folding a list of output lines into as few radio-sized pages as possible.

use vstd::prelude::*;

use crate::text::{
    byte_len, char_bytes, char_bytes_exec, chars_of, concat_all, copy_range, fits_within, is_space,
    lemma_byte_len_add, lemma_concat_all_add, lemma_trim_start, lemma_visible_add,
    lemma_visible_trim, string_of, string_views, trim_end, trim_end_chars, trim_start,
    trim_start_chars, views, visible,
};

verus! {

/// The largest message the radio carries, in bytes.
pub const MAX_LENGTH: usize = 200;

/// Collapse runs of whitespace: a newline that would be the third in a row,
/// or a space that would be the second in a row, is dropped.
pub open spec fn collapse(s: Seq<char>) -> Seq<char>
    decreases s.len(),
{
    if s.len() == 0 {
        Seq::empty()
    } else {
        let r = collapse(s.drop_last());
        let c = s.last();
        if dropped_after(r, c) {
            r
        } else {
            r.push(c)
        }
    }
}

/// Whether `c` is dropped when it follows the collapsed text `r`.
pub open spec fn dropped_after(r: Seq<char>, c: char) -> bool {
    (c == '\n' && r.len() >= 2 && r[r.len() - 1] == '\n' && r[r.len() - 2] == '\n') || (c == ' '
        && r.len() >= 1 && r[r.len() - 1] == ' ')
}

/// The normal form of a page: no leading whitespace, no run of three or more
/// newlines, no run of two or more spaces.
pub open spec fn shrunk(s: Seq<char>) -> Seq<char> {
    collapse(trim_start(s))
}

/// How many leading characters of `s` fit in `max` bytes.
pub open spec fn fit_len(s: Seq<char>, max: nat) -> nat
    decreases s.len(),
{
    if s.len() == 0 || char_bytes(s[0]) > max {
        0
    } else {
        1 + fit_len(s.drop_first(), (max - char_bytes(s[0])) as nat)
    }
}

/// Where a text too long for one chunk is cut: after as many characters as fit,
/// and after one character at least.
pub open spec fn cut_len(s: Seq<char>, max: nat) -> nat {
    if fit_len(s, max) == 0 {
        1
    } else {
        fit_len(s, max)
    }
}

/// A text cut into chunks of at most `max` bytes, whitespace trimmed at each cut.
pub open spec fn chunks(text: Seq<char>, max: nat) -> Seq<Seq<char>>
    decreases text.len(),
    via chunks_decreases
{
    if text.len() == 0 {
        Seq::empty()
    } else if byte_len(text) <= max {
        seq![trim_end(text)]
    } else {
        let k = cut_len(text, max);
        seq![trim_end(text.subrange(0, k as int))] + chunks(
            trim_start(text.subrange(k as int, text.len() as int)),
            max,
        )
    }
}

#[via_fn]
proof fn chunks_decreases(text: Seq<char>, max: nat) {
    if text.len() != 0 && byte_len(text) > max {
        let k = cut_len(text, max);
        lemma_fit_len_bound(text, max);
        lemma_trim_start(text.subrange(k as int, text.len() as int));
    }
}

proof fn lemma_fit_len_bound(s: Seq<char>, max: nat)
    ensures
        fit_len(s, max) <= s.len(),
        byte_len(s.subrange(0, fit_len(s, max) as int)) <= max,
        fit_len(s, max) < s.len() ==> byte_len(s.subrange(0, fit_len(s, max) as int + 1)) > max,
    decreases s.len(),
{
    if s.len() == 0 || char_bytes(s[0]) > max {
        assert(s.subrange(0, 0) == Seq::<char>::empty());
        if s.len() > 0 {
            assert(s.subrange(0, 1) == Seq::<char>::empty().push(s[0]));
        }
    } else {
        let t = s.drop_first();
        let m = (max - char_bytes(s[0])) as nat;
        lemma_fit_len_bound(t, m);
        let f = fit_len(t, m) as int;
        assert(s.subrange(0, f + 1) == seq![s[0]] + t.subrange(0, f));
        lemma_byte_len_add(seq![s[0]], t.subrange(0, f));
        assert(seq![s[0]].drop_last() == Seq::<char>::empty());
        assert(byte_len(Seq::<char>::empty()) == 0);
        assert(seq![s[0]].last() == s[0]);
        assert(byte_len(seq![s[0]]) == char_bytes(s[0]));
        if f < t.len() {
            assert(s.subrange(0, f + 2) == seq![s[0]] + t.subrange(0, f + 1));
            lemma_byte_len_add(seq![s[0]], t.subrange(0, f + 1));
        }
    }
}

/// The lines joined by newlines.
pub open spec fn join_lines(lines: Seq<Seq<char>>) -> Seq<char>
    decreases lines.len(),
{
    if lines.len() == 0 {
        Seq::empty()
    } else if lines.len() == 1 {
        lines[0]
    } else {
        join_lines(lines.drop_last()) + seq!['\n'] + lines.last()
    }
}

/// Greedy packing of the lines into pages: the finished pages, and the page
/// being filled.
pub open spec fn pack(lines: Seq<Seq<char>>, page_len: nat, max: nat) -> (Seq<Seq<char>>, Seq<char>)
    decreases lines.len(),
{
    if lines.len() == 0 {
        (Seq::empty(), Seq::empty())
    } else {
        let (pages, buf) = pack(lines.drop_last(), page_len, max);
        let line = lines.last();
        if buf.len() == 0 {
            (pages, line)
        } else {
            let b = shrunk(buf);
            if byte_len(b + seq!['\n'] + line) > page_len {
                (pages + chunks(trim_end(b), max), line)
            } else {
                (pages, b + seq!['\n'] + line)
            }
        }
    }
}

/// The length of the longest footer, that of a ninth page of nine.
pub open spec fn footer_reserve() -> nat {
    10
}

/// The pages of a text too long for one message, before footers.
pub open spec fn page_bodies(lines: Seq<Seq<char>>, max: nat) -> Seq<Seq<char>> {
    let (pages, buf) = pack(lines, (max - footer_reserve()) as nat, max);
    let rest = trim_end(shrunk(buf));
    if rest.len() > 0 {
        pages + chunks(rest, max)
    } else {
        pages
    }
}

/// A number in decimal.
pub open spec fn decimal(n: nat) -> Seq<char>
    decreases n,
{
    if n < 10 {
        seq![(n + '0' as nat) as char]
    } else {
        decimal(n / 10).push(((n % 10) + '0' as nat) as char)
    }
}

/// The footer of page `m` of `n`.
pub open spec fn footer_text(m: nat, n: nat) -> Seq<char> {
    seq!['\n', '\n', 'P', 'a', 'g', 'e', ' '] + decimal(m) + seq!['/'] + decimal(n)
}

/// Each page with its footer, where there is more than one.
pub open spec fn with_footers(bodies: Seq<Seq<char>>) -> Seq<Seq<char>> {
    if bodies.len() > 1 {
        Seq::new(bodies.len(), |i: int| bodies[i] + footer_text((i + 1) as nat, bodies.len()))
    } else {
        bodies
    }
}

/// The pages that `paginate` produces.
pub open spec fn paginated(lines: Seq<Seq<char>>, max: nat) -> Seq<Seq<char>> {
    if byte_len(join_lines(lines)) <= max {
        seq![join_lines(lines)]
    } else {
        with_footers(page_bodies(lines, max))
    }
}


fn collapse_chars(s: &Vec<char>) -> (r: Vec<char>)
    ensures
        r@ == collapse(s@),
{
    let mut out: Vec<char> = Vec::new();
    let mut i: usize = 0;
    while i < s.len()
        invariant
            i <= s.len(),
            out@ == collapse(s@.subrange(0, i as int)),
        decreases s.len() - i,
    {
        assert(s@.subrange(0, i + 1).drop_last() == s@.subrange(0, i as int));
        let c = s[i];
        let n = out.len();
        let drop = (c == '\n' && n >= 2 && out[n - 1] == '\n' && out[n - 2] == '\n') || (c == ' '
            && n >= 1 && out[n - 1] == ' ');
        if !drop {
            out.push(c);
        }
        i = i + 1;
    }
    assert(s@.subrange(0, s.len() as int) == s@);
    out
}

fn shrink_chars(s: &Vec<char>) -> (r: Vec<char>)
    ensures
        r@ == shrunk(s@),
{
    collapse_chars(&trim_start_chars(s))
}

/// Remove leading whitespace, and runs of three or more newlines or two or
/// more spaces, from a page.
pub fn shrink(text: String) -> (r: String)
    ensures
        r@ == shrunk(text@),
{
    string_of(&shrink_chars(&chars_of(text.as_str())))
}

fn fit_len_exec(s: &Vec<char>, max: usize) -> (r: usize)
    ensures
        r == fit_len(s@, max as nat),
{
    let mut used: usize = 0;
    let mut i: usize = 0;
    assert(s@.subrange(0, s.len() as int) == s@);
    while i < s.len()
        invariant
            i <= s.len(),
            used <= max,
            fit_len(s@, max as nat) == i + fit_len(
                s@.subrange(i as int, s.len() as int),
                (max - used) as nat,
            ),
        decreases s.len() - i,
    {
        let ghost rest = s@.subrange(i as int, s.len() as int);
        assert(rest[0] == s[i as int]);
        let w = char_bytes_exec(s[i]);
        if w > max - used {
            return i;
        }
        assert(rest.drop_first() == s@.subrange(i + 1, s.len() as int));
        used = used + w;
        i = i + 1;
    }
    i
}

fn split_chars(text: &Vec<char>, max: usize) -> (r: Vec<Vec<char>>)
    ensures
        views(r@) == chunks(text@, max as nat),
{
    let mut out: Vec<Vec<char>> = Vec::new();
    let mut cur = copy_range(text, 0, text.len());
    assert(text@.subrange(0, text.len() as int) == text@);
    assert(views(out@) + chunks(cur@, max as nat) == chunks(text@, max as nat));
    while cur.len() > 0
        invariant
            views(out@) + chunks(cur@, max as nat) == chunks(text@, max as nat),
        decreases cur.len(),
    {
        let ghost old_out = views(out@);
        if fits_within(&cur, max) {
            let piece = trim_end_chars(&cur);
            out.push(piece);
            assert(views(out@) == old_out.push(piece@));
            cur = Vec::new();
            assert(chunks(cur@, max as nat) == Seq::<Seq<char>>::empty());
        } else {
            let f = fit_len_exec(&cur, max);
            proof {
                lemma_fit_len_bound(cur@, max as nat);
            }
            let k = if f == 0 { 1 } else { f };
            let head = copy_range(&cur, 0, k);
            let piece = trim_end_chars(&head);
            let tail = copy_range(&cur, k, cur.len());
            out.push(piece);
            assert(views(out@) == old_out.push(piece@));
            let next = trim_start_chars(&tail);
            proof {
                lemma_trim_start(tail@);
                assert(old_out.push(piece@) + chunks(next@, max as nat) == old_out + (seq![piece@]
                    + chunks(next@, max as nat)));
            }
            cur = next;
        }
    }
    assert(chunks(cur@, max as nat) == Seq::<Seq<char>>::empty());
    assert(views(out@) + Seq::<Seq<char>>::empty() == views(out@));
    out
}

fn strings_of(v: &Vec<Vec<char>>) -> (r: Vec<String>)
    ensures
        string_views(r@) == views(v@),
{
    let mut out: Vec<String> = Vec::new();
    let mut i: usize = 0;
    while i < v.len()
        invariant
            i <= v.len(),
            out.len() == i,
            string_views(out@) == views(v@).subrange(0, i as int),
        decreases v.len() - i,
    {
        let ghost before = out@;
        let piece = string_of(&v[i]);
        out.push(piece);
        assert forall|j: int| 0 <= j < i + 1 implies #[trigger] out@[j]@ == v@[j]@ by {
            if j < i {
                assert(before[j]@ == string_views(before)[j]);
            }
        }
        assert(string_views(out@) =~= views(v@).subrange(0, i + 1));
        i = i + 1;
    }
    assert(views(v@).subrange(0, v.len() as int) == views(v@));
    out
}

/// Cut a text longer than one page into chunks of at most `max_length` bytes,
/// never inside a character, trimming the whitespace at each cut.
pub fn splitted(text: String, max_length: usize) -> (r: Vec<String>)
    ensures
        string_views(r@) == chunks(text@, max_length as nat),
{
    strings_of(&split_chars(&chars_of(text.as_str()), max_length))
}


fn decimal_chars(n: usize) -> (r: Vec<char>)
    ensures
        r@ == decimal(n as nat),
    decreases n,
{
    if n < 10 {
        vec![((n as u8) + 48u8) as char]
    } else {
        let mut v = decimal_chars(n / 10);
        v.push((((n % 10) as u8) + 48u8) as char);
        v
    }
}

fn footer(m: usize, n: usize) -> (r: Vec<char>)
    ensures
        r@ == footer_text(m as nat, n as nat),
{
    let mut v = vec!['\n', '\n', 'P', 'a', 'g', 'e', ' '];
    let mut a = decimal_chars(m);
    v.append(&mut a);
    v.push('/');
    let mut b = decimal_chars(n);
    v.append(&mut b);
    assert(v@ == seq!['\n', '\n', 'P', 'a', 'g', 'e', ' '] + decimal(m as nat) + seq!['/']
        + decimal(n as nat));
    v
}

fn join_chars(lines: &Vec<Vec<char>>) -> (r: Vec<char>)
    ensures
        r@ == join_lines(views(lines@)),
{
    let mut out: Vec<char> = Vec::new();
    let mut i: usize = 0;
    while i < lines.len()
        invariant
            i <= lines.len(),
            out@ == join_lines(views(lines@).subrange(0, i as int)),
        decreases lines.len() - i,
    {
        let ghost prefix = views(lines@).subrange(0, i + 1);
        assert(prefix.drop_last() == views(lines@).subrange(0, i as int));
        if i > 0 {
            out.push('\n');
        }
        let mut line = copy_range(&lines[i], 0, lines[i].len());
        assert(lines[i as int]@.subrange(0, lines[i as int]@.len() as int) == lines[i as int]@);
        out.append(&mut line);
        if i == 0 {
            assert(out@ == prefix[0]);
        }
        i = i + 1;
    }
    assert(views(lines@).subrange(0, lines.len() as int) == views(lines@));
    out
}

fn concat3(a: &Vec<char>, c: char, b: &Vec<char>) -> (r: Vec<char>)
    ensures
        r@ == a@ + seq![c] + b@,
{
    let mut r = copy_range(a, 0, a.len());
    r.push(c);
    let mut t = copy_range(b, 0, b.len());
    r.append(&mut t);
    assert(a@.subrange(0, a@.len() as int) == a@);
    assert(b@.subrange(0, b@.len() as int) == b@);
    r
}

/// Fold lines into pages of at most `max_length` bytes. Text that fits is
/// joined into one page; otherwise the lines are packed greedily, each page
/// normalized, over-long pages cut, and every page numbered `Page i/n`.
pub fn paginate(lines: Vec<String>, max_length: usize) -> (r: Vec<String>)
    requires
        max_length >= footer_reserve() || byte_len(join_lines(string_views(lines@))) <= max_length,
    ensures
        string_views(r@) == paginated(string_views(lines@), max_length as nat),
{
    let mut ls: Vec<Vec<char>> = Vec::new();
    let mut i: usize = 0;
    while i < lines.len()
        invariant
            i <= lines.len(),
            ls.len() == i,
            forall|j: int| 0 <= j < i ==> #[trigger] ls@[j]@ == lines@[j]@,
        decreases lines.len() - i,
    {
        ls.push(chars_of(lines[i].as_str()));
        i = i + 1;
    }
    assert(views(ls@) =~= string_views(lines@));
    let ghost lv = views(ls@);
    let joined = join_chars(&ls);
    if fits_within(&joined, max_length) {
        let one = string_of(&joined);
        let r = vec![one];
        assert(string_views(r@) =~= seq![joined@]);
        return r;
    }
    let page_len = max_length - 10;
    let mut buf: Vec<char> = Vec::new();
    let mut pages: Vec<Vec<char>> = Vec::new();
    let mut i: usize = 0;
    assert(lv.subrange(0, 0) =~= Seq::<Seq<char>>::empty());
    while i < ls.len()
        invariant
            i <= ls.len(),
            lv == views(ls@),
            page_len == max_length - 10,
            (views(pages@), buf@) == pack(lv.subrange(0, i as int), page_len as nat, max_length as nat),
        decreases ls.len() - i,
    {
        let ghost prefix = lv.subrange(0, i + 1);
        assert(prefix.drop_last() == lv.subrange(0, i as int));
        assert(prefix.last() == ls[i as int]@);
        let line = &ls[i];
        if buf.len() == 0 {
            buf = copy_range(line, 0, line.len());
            assert(line@.subrange(0, line@.len() as int) == line@);
        } else {
            let b = shrink_chars(&buf);
            let candidate = concat3(&b, '\n', line);
            if !fits_within(&candidate, page_len) {
                let ghost old_pages = views(pages@);
                let mut more = split_chars(&trim_end_chars(&b), max_length);
                let ghost more_v = views(more@);
                pages.append(&mut more);
                assert(views(pages@) =~= old_pages + more_v);
                buf = copy_range(line, 0, line.len());
                assert(line@.subrange(0, line@.len() as int) == line@);
            } else {
                buf = candidate;
            }
        }
        i = i + 1;
    }
    assert(lv.subrange(0, ls.len() as int) == lv);
    let rest = trim_end_chars(&shrink_chars(&buf));
    if rest.len() > 0 {
        let ghost old_pages = views(pages@);
        let mut more = split_chars(&rest, max_length);
        let ghost more_v = views(more@);
        pages.append(&mut more);
        assert(views(pages@) =~= old_pages + more_v);
    }
    let ghost bodies = views(pages@);
    assert(bodies == page_bodies(lv, max_length as nat));
    let n = pages.len();
    if n > 1 {
        let mut out: Vec<String> = Vec::new();
        let mut k: usize = 0;
        while k < n
            invariant
                k <= n,
                n == pages.len(),
                n > 1,
                bodies == views(pages@),
                out.len() == k,
                forall|j: int| 0 <= j < k ==> #[trigger] out@[j]@ == bodies[j] + footer_text(
                    (j + 1) as nat,
                    n as nat,
                ),
            decreases n - k,
        {
            let f = footer(k + 1, n);
            let page = concat_pages(&pages[k], &f);
            out.push(string_of(&page));
            k = k + 1;
        }
        assert(string_views(out@) =~= with_footers(bodies));
        out
    } else {
        strings_of(&pages)
    }
}

fn concat_pages(a: &Vec<char>, b: &Vec<char>) -> (r: Vec<char>)
    ensures
        r@ == a@ + b@,
{
    let mut r = copy_range(a, 0, a.len());
    let mut t = copy_range(b, 0, b.len());
    r.append(&mut t);
    assert(a@.subrange(0, a@.len() as int) == a@);
    assert(b@.subrange(0, b@.len() as int) == b@);
    r
}


proof fn lemma_visible_collapse(s: Seq<char>)
    ensures
        visible(collapse(s)) == visible(s),
    decreases s.len(),
{
    if s.len() > 0 {
        lemma_visible_collapse(s.drop_last());
        let r = collapse(s.drop_last());
        let c = s.last();
        if !dropped_after(r, c) {
            assert(r.push(c).drop_last() == r);
        }
    }
}

proof fn lemma_visible_shrunk(s: Seq<char>)
    ensures
        visible(shrunk(s)) == visible(s),
{
    lemma_visible_collapse(trim_start(s));
    lemma_visible_trim(s);
}

proof fn lemma_concat_one(a: Seq<Seq<char>>, b: Seq<char>)
    ensures
        concat_all(a.push(b)) == concat_all(a) + b,
{
    assert(a.push(b).drop_last() == a);
}

proof fn lemma_visible_chunks(t: Seq<char>, max: nat)
    ensures
        visible(concat_all(chunks(t, max))) == visible(t),
    decreases t.len(),
{
    if t.len() == 0 {
    } else if byte_len(t) <= max {
        lemma_concat_one(Seq::empty(), trim_end(t));
        assert(Seq::<Seq<char>>::empty().push(trim_end(t)) == seq![trim_end(t)]);
        assert(Seq::<char>::empty() + trim_end(t) == trim_end(t));
        lemma_visible_trim(t);
    } else {
        let k = cut_len(t, max);
        lemma_fit_len_bound(t, max);
        let head = t.subrange(0, k as int);
        let tail = t.subrange(k as int, t.len() as int);
        let rest = trim_start(tail);
        lemma_trim_start(tail);
        lemma_visible_chunks(rest, max);
        lemma_concat_all_add(seq![trim_end(head)], chunks(rest, max));
        lemma_concat_one(Seq::empty(), trim_end(head));
        assert(Seq::<Seq<char>>::empty().push(trim_end(head)) == seq![trim_end(head)]);
        assert(Seq::<char>::empty() + trim_end(head) == trim_end(head));
        lemma_visible_add(trim_end(head), concat_all(chunks(rest, max)));
        lemma_visible_trim(head);
        lemma_visible_trim(tail);
        assert(t == head + tail);
        lemma_visible_add(head, tail);
    }
}

proof fn lemma_chunks_fit(t: Seq<char>, max: nat)
    requires
        max >= 4,
    ensures
        forall|i: int| 0 <= i < chunks(t, max).len() ==> byte_len(#[trigger] chunks(t, max)[i]) <= max,
    decreases t.len(),
{
    if t.len() == 0 {
    } else if byte_len(t) <= max {
        lemma_visible_trim(t);
    } else {
        let k = cut_len(t, max);
        lemma_fit_len_bound(t, max);
        let head = t.subrange(0, k as int);
        let tail = t.subrange(k as int, t.len() as int);
        lemma_trim_start(tail);
        lemma_chunks_fit(trim_start(tail), max);
        lemma_visible_trim(head);
        if fit_len(t, max) == 0 {
            assert(head.drop_last() == Seq::<char>::empty());
            assert(byte_len(Seq::<char>::empty()) == 0);
        }
        let c = chunks(t, max);
        assert forall|i: int| 0 <= i < c.len() implies byte_len(#[trigger] c[i]) <= max by {
            if i > 0 {
                assert(c[i] == chunks(trim_start(tail), max)[i - 1]);
            }
        }
    }
}

proof fn lemma_pack_keeps_content(lines: Seq<Seq<char>>, page_len: nat, max: nat)
    ensures
        visible(concat_all(pack(lines, page_len, max).0) + pack(lines, page_len, max).1) == visible(
            join_lines(lines),
        ),
        lines.len() == 0 ==> pack(lines, page_len, max).1.len() == 0,
    decreases lines.len(),
{
    if lines.len() > 0 {
        let prev = lines.drop_last();
        lemma_pack_keeps_content(prev, page_len, max);
        let (pages, buf) = pack(prev, page_len, max);
        let line = lines.last();
        let cp = concat_all(pages);
        lemma_visible_add(cp, buf);
        let nl = seq!['\n'];
        assert(visible(nl) == Seq::<char>::empty()) by {
            assert(nl.drop_last() == Seq::<char>::empty());
            assert(nl.last() == '\n');
            assert(is_space('\n'));
            assert(visible(Seq::<char>::empty()) == Seq::<char>::empty());
        }
        if lines.len() >= 2 {
            lemma_visible_add(join_lines(prev) + nl, line);
            lemma_visible_add(join_lines(prev), nl);
        } else {
            assert(prev.len() == 0);
            assert(lines[0] == line);
        }
        if buf.len() == 0 {
            lemma_visible_add(cp, line);
            assert(cp + buf == cp);
        } else {
            let b = shrunk(buf);
            lemma_visible_shrunk(buf);
            if byte_len(b + nl + line) > page_len {
                let more = chunks(trim_end(b), max);
                lemma_concat_all_add(pages, more);
                lemma_visible_chunks(trim_end(b), max);
                lemma_visible_trim(b);
                lemma_visible_add(cp + concat_all(more), line);
                lemma_visible_add(cp, concat_all(more));
            } else {
                assert(cp + (b + nl + line) == ((cp + b) + nl) + line);
                lemma_visible_add((cp + b) + nl, line);
                lemma_visible_add(cp + b, nl);
                lemma_visible_add(cp, b);
            }
        }
    }
}

/// Cutting text into pages loses nothing but whitespace: where the joined
/// lines do not fit in one message, the pages are the page bodies with their
/// footers, the bodies hold, in order, every character of the joined lines
/// that is not whitespace, and each body fits in `max` bytes.
pub proof fn lemma_pages_keep_content(lines: Seq<Seq<char>>, max: nat)
    requires
        max >= footer_reserve(),
        byte_len(join_lines(lines)) > max,
    ensures
        paginated(lines, max) == with_footers(page_bodies(lines, max)),
        visible(concat_all(page_bodies(lines, max))) == visible(join_lines(lines)),
        forall|i: int|
            0 <= i < page_bodies(lines, max).len() ==> byte_len(
                #[trigger] page_bodies(lines, max)[i],
            ) <= max,
{
    let page_len = (max - footer_reserve()) as nat;
    lemma_pack_keeps_content(lines, page_len, max);
    lemma_pack_fits(lines, page_len, max);
    let (pages, buf) = pack(lines, page_len, max);
    let rest = trim_end(shrunk(buf));
    lemma_visible_shrunk(buf);
    lemma_visible_trim(shrunk(buf));
    lemma_visible_add(concat_all(pages), buf);
    if rest.len() > 0 {
        lemma_concat_all_add(pages, chunks(rest, max));
        lemma_visible_chunks(rest, max);
        lemma_visible_add(concat_all(pages), concat_all(chunks(rest, max)));
        lemma_chunks_fit(rest, max);
        let bodies = pages + chunks(rest, max);
        assert forall|i: int| 0 <= i < bodies.len() implies byte_len(#[trigger] bodies[i]) <= max by {
            if i >= pages.len() {
                assert(bodies[i] == chunks(rest, max)[i - pages.len()]);
            }
        }
    } else {
        assert(visible(rest) == Seq::<char>::empty());
        assert(concat_all(pages) + Seq::<char>::empty() == concat_all(pages));
    }
}

proof fn lemma_pack_fits(lines: Seq<Seq<char>>, page_len: nat, max: nat)
    requires
        max >= 4,
    ensures
        forall|i: int|
            0 <= i < pack(lines, page_len, max).0.len() ==> byte_len(
                #[trigger] pack(lines, page_len, max).0[i],
            ) <= max,
    decreases lines.len(),
{
    if lines.len() > 0 {
        let prev = lines.drop_last();
        lemma_pack_fits(prev, page_len, max);
        let (pages, buf) = pack(prev, page_len, max);
        if buf.len() > 0 {
            let b = shrunk(buf);
            lemma_chunks_fit(trim_end(b), max);
            let more = chunks(trim_end(b), max);
            let all = pages + more;
            assert forall|i: int| 0 <= i < all.len() implies byte_len(#[trigger] all[i]) <= max by {
                if i >= pages.len() {
                    assert(all[i] == more[i - pages.len()]);
                }
            }
        }
    }
}

/// Text that already fits is returned as one page, unchanged and without a
/// footer.
pub proof fn lemma_single_page(lines: Seq<Seq<char>>, max: nat)
    requires
        byte_len(join_lines(lines)) <= max,
    ensures
        paginated(lines, max) == seq![join_lines(lines)],
        paginated(lines, max).len() == 1,
{
}

} // verus!
