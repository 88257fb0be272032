//! Read cursors: where a user stands in each board's stream of posts, and how
//! `current`, `previous`, `next` and `quick` move them.
//!
//! A board's posts are given in the order the store keeps them, each with its
//! creation time in microseconds and whether its author is banned. Posts of
//! banned authors are skipped by all four operations as if they were not
//! there. A cursor is the time of the last post the user read in a board; a
//! board the user never read has cursor 0.

use vstd::prelude::*;

use crate::text::{chars_of, concat, copy_range, string_of, string_views, views};

verus! {

/// A post as navigation sees it.
#[derive(Debug, Clone, Copy, PartialEq, Eq, Structural)]
pub struct PostRef {
    pub id: i32,
    pub created_at_us: i64,
    pub author_banned: bool,
}

/// Whether navigation shows the post.
pub open spec fn shown(p: PostRef) -> bool {
    !p.author_banned
}

/// Post `k` is shown and stands exactly at the cursor.
pub open spec fn is_at(posts: Seq<PostRef>, cursor: int, k: int) -> bool {
    0 <= k < posts.len() && shown(posts[k]) && posts[k].created_at_us == cursor
}

/// Post `k` is a shown post newer than the cursor, and no shown post newer
/// than the cursor is older than it.
pub open spec fn is_after(posts: Seq<PostRef>, cursor: int, k: int) -> bool {
    &&& 0 <= k < posts.len()
    &&& shown(posts[k])
    &&& posts[k].created_at_us > cursor
    &&& forall|m: int|
        0 <= m < posts.len() && shown(#[trigger] posts[m]) && posts[m].created_at_us > cursor
            ==> posts[k].created_at_us <= posts[m].created_at_us
}

/// Post `k` is a shown post older than the cursor, and no shown post older
/// than the cursor is newer than it.
pub open spec fn is_before(posts: Seq<PostRef>, cursor: int, k: int) -> bool {
    &&& 0 <= k < posts.len()
    &&& shown(posts[k])
    &&& posts[k].created_at_us < cursor
    &&& forall|m: int|
        0 <= m < posts.len() && shown(#[trigger] posts[m]) && posts[m].created_at_us < cursor
            ==> posts[m].created_at_us <= posts[k].created_at_us
}

/// `k` is the first index that `p` holds of.
pub open spec fn first_with(p: spec_fn(int) -> bool, k: int) -> bool {
    p(k) && forall|m: int| 0 <= m < k ==> !#[trigger] p(m)
}

/// Whether the board has a shown post newer than the cursor.
pub open spec fn has_newer(posts: Seq<PostRef>, cursor: int) -> bool {
    exists|k: int| is_after(posts, cursor, k)
}

/// Whether the board has a shown post older than the cursor.
pub open spec fn has_older(posts: Seq<PostRef>, cursor: int) -> bool {
    exists|k: int| is_before(posts, cursor, k)
}

/// Whether the board has a shown post exactly at the cursor.
pub open spec fn has_at(posts: Seq<PostRef>, cursor: int) -> bool {
    exists|k: int| is_at(posts, cursor, k)
}

/// Where `previous` leaves the cursor: at the post it shows; else one step
/// before the oldest post where the cursor stood on it; else where it was.
pub open spec fn previous_cursor(posts: Seq<PostRef>, cursor: i64) -> i64 {
    if has_older(posts, cursor as int) {
        posts[choose|k: int| is_before(posts, cursor as int, k)].created_at_us
    } else if has_at(posts, cursor as int) && cursor > i64::MIN {
        (cursor - 1) as i64
    } else {
        cursor
    }
}

/// Where `next` leaves the cursor: at the post it shows; else one step after
/// the newest post where the cursor stood on it; else where it was.
pub open spec fn next_cursor(posts: Seq<PostRef>, cursor: i64) -> i64 {
    if has_newer(posts, cursor as int) {
        posts[choose|k: int| is_after(posts, cursor as int, k)].created_at_us
    } else if has_at(posts, cursor as int) && cursor < i64::MAX {
        (cursor + 1) as i64
    } else {
        cursor
    }
}

/// The outcome of moving a cursor: the post to show, if any, and the new cursor.
#[derive(Debug, Clone, Copy, PartialEq, Eq, Structural)]
pub struct Step {
    pub post: Option<usize>,
    pub cursor: i64,
}

/// The first shown post exactly at the cursor, if there is one.
pub fn current(posts: &Vec<PostRef>, cursor: i64) -> (r: Option<usize>)
    ensures
        r matches Some(k) ==> first_with(|m: int| is_at(posts@, cursor as int, m), k as int),
        r is None ==> !has_at(posts@, cursor as int),
{
    let mut i: usize = 0;
    while i < posts.len()
        invariant
            i <= posts.len(),
            forall|m: int| 0 <= m < i ==> !#[trigger] is_at(posts@, cursor as int, m),
        decreases posts.len() - i,
    {
        let p = posts[i];
        if !p.author_banned && p.created_at_us == cursor {
            return Some(i);
        }
        i = i + 1;
    }
    None
}

/// The first of the oldest shown posts newer than the cursor, if any.
fn find_after(posts: &Vec<PostRef>, cursor: i64) -> (r: Option<usize>)
    ensures
        r matches Some(k) ==> first_with(|m: int| is_after(posts@, cursor as int, m), k as int),
        r is None ==> !has_newer(posts@, cursor as int),
{
    let mut best: Option<usize> = None;
    let mut i: usize = 0;
    while i < posts.len()
        invariant
            i <= posts.len(),
            best is None ==> forall|m: int|
                0 <= m < i ==> !(shown(#[trigger] posts@[m]) && posts@[m].created_at_us > cursor),
            best matches Some(k) ==> {
                &&& k < i
                &&& shown(posts@[k as int])
                &&& posts@[k as int].created_at_us > cursor
                &&& forall|m: int|
                    0 <= m < i && shown(#[trigger] posts@[m]) && posts@[m].created_at_us > cursor
                        ==> posts@[k as int].created_at_us <= posts@[m].created_at_us
                &&& forall|m: int|
                    0 <= m < k && shown(#[trigger] posts@[m]) && posts@[m].created_at_us > cursor
                        ==> posts@[k as int].created_at_us < posts@[m].created_at_us
            },
        decreases posts.len() - i,
    {
        let p = posts[i];
        if !p.author_banned && p.created_at_us > cursor {
            match best {
                None => {
                    best = Some(i);
                },
                Some(k) => {
                    if p.created_at_us < posts[k].created_at_us {
                        best = Some(i);
                    }
                },
            }
        }
        i = i + 1;
    }
    match best {
        Some(k) => {
            assert forall|m: int| 0 <= m < k implies !#[trigger] is_after(posts@, cursor as int, m) by {
                if is_after(posts@, cursor as int, m) {
                    assert(shown(posts@[k as int]));
                }
            }
        },
        None => {
            assert forall|k: int| !#[trigger] is_after(posts@, cursor as int, k) by {
                if 0 <= k < posts@.len() {
                    assert(!(shown(posts@[k]) && posts@[k].created_at_us > cursor));
                }
            }
        },
    }
    best
}

/// The first of the newest shown posts older than the cursor, if any.
fn find_before(posts: &Vec<PostRef>, cursor: i64) -> (r: Option<usize>)
    ensures
        r matches Some(k) ==> first_with(|m: int| is_before(posts@, cursor as int, m), k as int),
        r is None ==> !has_older(posts@, cursor as int),
{
    let mut best: Option<usize> = None;
    let mut i: usize = 0;
    while i < posts.len()
        invariant
            i <= posts.len(),
            best is None ==> forall|m: int|
                0 <= m < i ==> !(shown(#[trigger] posts@[m]) && posts@[m].created_at_us < cursor),
            best matches Some(k) ==> {
                &&& k < i
                &&& shown(posts@[k as int])
                &&& posts@[k as int].created_at_us < cursor
                &&& forall|m: int|
                    0 <= m < i && shown(#[trigger] posts@[m]) && posts@[m].created_at_us < cursor
                        ==> posts@[m].created_at_us <= posts@[k as int].created_at_us
                &&& forall|m: int|
                    0 <= m < k && shown(#[trigger] posts@[m]) && posts@[m].created_at_us < cursor
                        ==> posts@[m].created_at_us < posts@[k as int].created_at_us
            },
        decreases posts.len() - i,
    {
        let p = posts[i];
        if !p.author_banned && p.created_at_us < cursor {
            match best {
                None => {
                    best = Some(i);
                },
                Some(k) => {
                    if p.created_at_us > posts[k].created_at_us {
                        best = Some(i);
                    }
                },
            }
        }
        i = i + 1;
    }
    match best {
        Some(k) => {
            assert forall|m: int| 0 <= m < k implies !#[trigger] is_before(posts@, cursor as int, m) by {
                if is_before(posts@, cursor as int, m) {
                    assert(shown(posts@[k as int]));
                }
            }
        },
        None => {
            assert forall|k: int| !#[trigger] is_before(posts@, cursor as int, k) by {
                if 0 <= k < posts@.len() {
                    assert(!(shown(posts@[k]) && posts@[k].created_at_us < cursor));
                }
            }
        },
    }
    best
}

proof fn lemma_after_same_time(posts: Seq<PostRef>, cursor: int, a: int, b: int)
    requires
        is_after(posts, cursor, a),
        is_after(posts, cursor, b),
    ensures
        posts[a].created_at_us == posts[b].created_at_us,
{
    assert(shown(posts[a]) && shown(posts[b]));
}

proof fn lemma_before_same_time(posts: Seq<PostRef>, cursor: int, a: int, b: int)
    requires
        is_before(posts, cursor, a),
        is_before(posts, cursor, b),
    ensures
        posts[a].created_at_us == posts[b].created_at_us,
{
    assert(shown(posts[a]) && shown(posts[b]));
}

/// Move back to the newest shown post older than the cursor. Where there is
/// none, the cursor steps once to just before the oldest post.
pub fn previous(posts: &Vec<PostRef>, cursor: i64) -> (r: Step)
    ensures
        r.post matches Some(k) ==> first_with(|m: int| is_before(posts@, cursor as int, m), k as int),
        r.post is None ==> !has_older(posts@, cursor as int),
        r.cursor == previous_cursor(posts@, cursor),
{
    match find_before(posts, cursor) {
        Some(k) => {
            proof {
                let c = choose|c: int| is_before(posts@, cursor as int, c);
                lemma_before_same_time(posts@, cursor as int, k as int, c);
            }
            Step { post: Some(k), cursor: posts[k].created_at_us }
        },
        None => {
            let here = current(posts, cursor);
            if here.is_some() && cursor > i64::MIN {
                Step { post: None, cursor: cursor - 1 }
            } else {
                Step { post: None, cursor }
            }
        },
    }
}

/// Move on to the oldest shown post newer than the cursor. Where there is
/// none, the cursor steps once to just after the newest post.
pub fn next(posts: &Vec<PostRef>, cursor: i64) -> (r: Step)
    ensures
        r.post matches Some(k) ==> first_with(|m: int| is_after(posts@, cursor as int, m), k as int),
        r.post is None ==> !has_newer(posts@, cursor as int),
        r.cursor == next_cursor(posts@, cursor),
{
    match find_after(posts, cursor) {
        Some(k) => {
            proof {
                let c = choose|c: int| is_after(posts@, cursor as int, c);
                lemma_after_same_time(posts@, cursor as int, k as int, c);
            }
            Step { post: Some(k), cursor: posts[k].created_at_us }
        },
        None => {
            let here = current(posts, cursor);
            if here.is_some() && cursor < i64::MAX {
                Step { post: None, cursor: cursor + 1 }
            } else {
                Step { post: None, cursor }
            }
        },
    }
}

/// Does this board have any unread posts for this cursor?
pub fn has_unread(posts: &Vec<PostRef>, cursor: i64) -> (r: bool)
    ensures
        r == has_newer(posts@, cursor as int),
{
    find_after(posts, cursor).is_some()
}

/// Post `m` is shown and older than the cursor.
pub open spec fn older(posts: Seq<PostRef>, cursor: int, m: int) -> bool {
    0 <= m < posts.len() && shown(posts[m]) && posts[m].created_at_us < cursor
}

/// Post `k` is the newest of the shown posts older than the cursor among the first `n`.
pub open spec fn newest_older(posts: Seq<PostRef>, cursor: int, n: int, k: int) -> bool {
    &&& 0 <= k < n
    &&& older(posts, cursor, k)
    &&& forall|m: int|
        0 <= m < n && #[trigger] older(posts, cursor, m) ==> posts[m].created_at_us
            <= posts[k].created_at_us
}

/// Among finitely many posts, where one shown post is older than the cursor,
/// a newest such post exists.
proof fn lemma_newest_older_exists(posts: Seq<PostRef>, cursor: int, n: int, w: int)
    requires
        0 <= w < n <= posts.len(),
        older(posts, cursor, w),
    ensures
        exists|k: int| newest_older(posts, cursor, n, k),
    decreases n,
{
    let last = n - 1;
    if exists|m: int| 0 <= m < last && older(posts, cursor, m) {
        let w2 = choose|m: int| 0 <= m < last && older(posts, cursor, m);
        lemma_newest_older_exists(posts, cursor, last, w2);
        let k = choose|k: int| newest_older(posts, cursor, last, k);
        if older(posts, cursor, last) && posts[last].created_at_us > posts[k].created_at_us {
            assert(newest_older(posts, cursor, n, last));
        } else {
            assert(newest_older(posts, cursor, n, k));
        }
    } else {
        assert(w == last);
        assert(newest_older(posts, cursor, n, last));
    }
}

/// `previous` never moves the cursor forward, and at the oldest post it moves
/// it at most once: a second `previous` from there leaves it where it is.
pub proof fn lemma_previous_settles(posts: Seq<PostRef>, cursor: i64)
    ensures
        previous_cursor(posts, cursor) <= cursor,
        !has_older(posts, cursor as int) ==> previous_cursor(
            posts,
            previous_cursor(posts, cursor),
        ) == previous_cursor(posts, cursor),
{
    if has_older(posts, cursor as int) {
        let k = choose|k: int| is_before(posts, cursor as int, k);
    } else {
        let c1 = previous_cursor(posts, cursor);
        if c1 != cursor {
            assert forall|k: int| !#[trigger] is_before(posts, c1 as int, k) by {
                if is_before(posts, c1 as int, k) {
                    assert(older(posts, cursor as int, k));
                    lemma_newest_older_exists(posts, cursor as int, posts.len() as int, k);
                    let j = choose|j: int| newest_older(posts, cursor as int, posts.len() as int, j);
                    assert forall|m: int|
                        0 <= m < posts.len() && shown(#[trigger] posts[m]) && posts[m].created_at_us
                            < cursor implies posts[m].created_at_us <= posts[j].created_at_us by {
                        assert(older(posts, cursor as int, m));
                    }
                    assert(is_before(posts, cursor as int, j));
                }
            }
            assert forall|k: int| !#[trigger] is_at(posts, c1 as int, k) by {
                if is_at(posts, c1 as int, k) {
                    assert(!is_before(posts, cursor as int, k));
                    assert(shown(posts[k]));
                }
            }
        }
    }
}


/// The board `quick` looks at first: the user's board where it exists, else
/// board 1.
pub open spec fn quick_start(in_board: Option<i32>, n: int) -> int {
    match in_board {
        Some(b) if 1 <= b <= n => b as int,
        _ => 1,
    }
}

/// The board `quick` looks at in turn `t` of `n`: from the start board up to
/// the last, then from board 1 up to just before the start.
pub open spec fn visit(start: int, n: int, t: int) -> int {
    if start + t <= n {
        start + t
    } else {
        start + t - n
    }
}

/// What `quick` found.
#[derive(Debug, Clone, Copy, PartialEq, Eq, Structural)]
pub enum Quick {
    /// Show post `post` of board `board` (numbered from 1), set that board's
    /// cursor to `cursor`, and, where `moved`, move the user into that board.
    Found { board: i32, post: usize, cursor: i64, moved: bool },
    /// No board has an unread post.
    NoUnread,
}

/// Find the next unread post in any board. Boards are numbered from 1:
/// `boards[b - 1]` holds the posts of board `b` and `cursors[b - 1]` the
/// user's cursor there. Each board is looked at once, starting at the user's
/// board and wrapping around after the last; the first unread post found is
/// the oldest shown post newer than that board's cursor.
pub fn quick(boards: &Vec<Vec<PostRef>>, cursors: &Vec<i64>, in_board: Option<i32>) -> (r: Quick)
    requires
        boards.len() == cursors.len(),
        boards.len() < i32::MAX,
    ensures
        r matches Quick::Found { board, post, cursor, moved } ==> {
            let n = boards.len() as int;
            let start = quick_start(in_board, n);
            &&& exists|t: int|
                0 <= t < n && visit(start, n, t) == board && forall|t2: int|
                    0 <= t2 < t ==> !has_newer(
                        boards@[visit(start, n, t2) - 1]@,
                        cursors@[visit(start, n, t2) - 1] as int,
                    )
            &&& 1 <= board <= n
            &&& first_with(
                |m: int| is_after(boards@[board - 1]@, cursors@[board - 1] as int, m),
                post as int,
            )
            &&& cursor == boards@[board - 1]@[post as int].created_at_us
            &&& moved == (in_board != Some(board))
        },
        r is NoUnread ==> forall|b: int|
            0 <= b < boards.len() ==> !has_newer(#[trigger] boards@[b]@, cursors@[b] as int),
{
    let n = boards.len();
    if n == 0 {
        return Quick::NoUnread;
    }
    let start: usize = match in_board {
        Some(b) => if 1 <= b && (b as usize) <= n {
            b as usize
        } else {
            1
        },
        None => 1,
    };
    assert(start == quick_start(in_board, n as int));
    let mut t: usize = 0;
    while t < n
        invariant
            n == boards.len(),
            n == cursors.len(),
            n < i32::MAX,
            1 <= start <= n,
            start == quick_start(in_board, n as int),
            t <= n,
            forall|t2: int|
                0 <= t2 < t ==> !has_newer(
                    boards@[visit(start as int, n as int, t2) - 1]@,
                    cursors@[visit(start as int, n as int, t2) - 1] as int,
                ),
        decreases n - t,
    {
        let b: usize = if start + t <= n {
            start + t
        } else {
            start + t - n
        };
        assert(b == visit(start as int, n as int, t as int));
        match find_after(&boards[b - 1], cursors[b - 1]) {
            Some(k) => {
                let board = b as i32;
                let moved = match in_board {
                    Some(cur) => cur != board,
                    None => true,
                };
                return Quick::Found {
                    board,
                    post: k,
                    cursor: boards[b - 1][k].created_at_us,
                    moved,
                };
            },
            None => {},
        }
        t = t + 1;
    }
    assert forall|b: int| 0 <= b < boards.len() implies !has_newer(
        #[trigger] boards@[b]@,
        cursors@[b] as int,
    ) by {
        let c = b + 1;
        let t2 = if c >= start { c - start } else { c + n - start };
        assert(visit(start as int, n as int, t2) == c);
    }
    Quick::NoUnread
}


/// The reply where the user is in no board.
pub const NOT_IN_BOARD: &'static str = "You are not in a board.";

/// The reply where a board number is not a number.
pub const NOT_VALID: &'static str = "That's not a valid number.";

/// The reply where there are no boards.
pub const NO_BOARDS: &'static str = "There are no boards.";

/// The reply where `previous` or `next` finds no post.
pub const NO_MORE_POSTS: &'static str = "There are no more posts in this board.";

/// The reply where `quick` finds no unread post.
pub const NO_MORE_UNREAD: &'static str = "There are no more unread posts in any board.";

/// The reply where `current` finds no post.
pub const NO_SUCH_POST: &'static str = "There is no post here.";

/// A text cut at each newline; a text without newlines is one piece.
pub open spec fn pieces(s: Seq<char>) -> Seq<Seq<char>>
    decreases s.len(),
{
    if s.len() == 0 {
        seq![Seq::empty()]
    } else {
        let p = pieces(s.drop_last());
        if s.last() == '\n' {
            p.push(Seq::empty())
        } else {
            p.drop_last().push(p.last().push(s.last()))
        }
    }
}

/// Each piece after an empty line.
pub open spec fn spaced(ps: Seq<Seq<char>>) -> Seq<Seq<char>>
    decreases ps.len(),
{
    if ps.len() == 0 {
        Seq::empty()
    } else {
        spaced(ps.drop_last()) + seq![Seq::<char>::empty(), ps.last()]
    }
}

/// How a post is shown: its author, its time, then each line of its body
/// after an empty line.
pub open spec fn post_text(author: Seq<char>, at: Seq<char>, body: Seq<char>) -> Seq<Seq<char>> {
    seq!["From: "@ + author, "At: "@ + at] + spaced(pieces(body))
}

/// Show a post and who wrote it, given the author's description and the
/// post's time as text. Each line of the body is a line of its own.
pub fn post_print(author: &str, at: &str, body: &str) -> (r: Vec<String>)
    ensures
        string_views(r@) == post_text(author@, at@, body@),
{
    let chars = chars_of(body);
    let mut done: Vec<Vec<char>> = Vec::new();
    let mut cur: Vec<char> = Vec::new();
    let mut i: usize = 0;
    assert(chars@.subrange(0, 0) == Seq::<char>::empty());
    assert(views(done@).push(cur@) =~= pieces(Seq::<char>::empty()));
    while i < chars.len()
        invariant
            i <= chars.len(),
            views(done@).push(cur@) == pieces(chars@.subrange(0, i as int)),
        decreases chars.len() - i,
    {
        let ghost before = views(done@);
        assert(chars@.subrange(0, i + 1).drop_last() == chars@.subrange(0, i as int));
        if chars[i] == '\n' {
            let finished = copy_range(&cur, 0, cur.len());
            assert(cur@.subrange(0, cur@.len() as int) == cur@);
            done.push(finished);
            cur = Vec::new();
            assert(views(done@) =~= before.push(finished@));
        } else {
            cur.push(chars[i]);
            assert(views(done@).push(cur@) =~= before.push(cur@));
        }
        i = i + 1;
    }
    assert(chars@.subrange(0, chars.len() as int) == chars@);
    let ghost before_last = views(done@);
    let ghost last = cur@;
    done.push(cur);
    assert(views(done@) =~= before_last.push(last));
    let ghost ps = views(done@);
    assert(ps == pieces(body@));
    let mut out: Vec<String> = vec![concat("From: ", author), concat("At: ", at)];
    let ghost head = string_views(out@);
    let mut k: usize = 0;
    assert(ps.subrange(0, 0) == Seq::<Seq<char>>::empty());
    while k < done.len()
        invariant
            k <= done.len(),
            ps == views(done@),
            string_views(out@) == head + spaced(ps.subrange(0, k as int)),
        decreases done.len() - k,
    {
        let ghost before = string_views(out@);
        assert(ps.subrange(0, k + 1).drop_last() == ps.subrange(0, k as int));
        out.push(String::new());
        out.push(string_of(&done[k]));
        assert(string_views(out@) =~= before + seq![Seq::<char>::empty(), ps[k as int]]);
        k = k + 1;
    }
    assert(ps.subrange(0, done.len() as int) == ps);
    assert(head =~= seq!["From: "@ + author@, "At: "@ + at@]);
    out
}

/// The lines that `quick` sends before a post of another board.
pub fn quick_banner(board_name: &str) -> (r: Vec<String>)
    ensures
        string_views(r@) == seq!["In "@ + board_name@ + ":"@, Seq::<char>::empty()],
{
    let a = concat("In ", board_name);
    let r = vec![concat(a.as_str(), ":"), String::new()];
    assert(string_views(r@) =~= seq!["In "@ + board_name@ + ":"@, Seq::<char>::empty()]);
    r
}


/// The value of a string of decimal digits, most significant first.
pub open spec fn digits_value(s: Seq<char>) -> Option<nat>
    decreases s.len(),
{
    if s.len() == 0 {
        Some(0)
    } else {
        match digits_value(s.drop_last()) {
            Some(high) if '0' <= s.last() && s.last() <= '9' => Some(
                (high * 10 + (s.last() as nat - '0' as nat)) as nat,
            ),
            _ => None,
        }
    }
}

/// How `str::parse::<i32>` reads a string: an optional sign, then at least
/// one decimal digit, within the range of `i32`.
pub open spec fn i32_value(s: Seq<char>) -> Option<int> {
    let negative = s.len() > 0 && s[0] == '-';
    let digits = if s.len() > 0 && (s[0] == '-' || s[0] == '+') { s.drop_first() } else { s };
    if digits.len() == 0 {
        None
    } else {
        match digits_value(digits) {
            Some(v) => {
                let x = if negative { -v } else { v as int };
                if i32::MIN <= x <= i32::MAX {
                    Some(x)
                } else {
                    None
                }
            },
            None => None,
        }
    }
}

proof fn lemma_digits_grow(s: Seq<char>, n: int)
    requires
        0 <= n <= s.len(),
        digits_value(s) is Some,
    ensures
        digits_value(s.subrange(0, n)) is Some,
        digits_value(s.subrange(0, n)).unwrap() <= digits_value(s).unwrap(),
    decreases s.len() - n,
{
    if n < s.len() {
        lemma_digits_grow(s.drop_last(), n);
        assert(s.drop_last().subrange(0, n) == s.subrange(0, n));
    } else {
        assert(s.subrange(0, n) == s);
    }
}

/// Read a number the way `str::parse::<i32>` does.
pub fn parse_i32(text: &str) -> (r: Option<i32>)
    ensures
        r matches Some(v) ==> i32_value(text@) == Some(v as int),
        r is None ==> i32_value(text@) is None,
{
    let chars = chars_of(text);
    let negative = chars.len() > 0 && chars[0] == '-';
    let start: usize = if chars.len() > 0 && (chars[0] == '-' || chars[0] == '+') { 1 } else { 0 };
    if start == chars.len() {
        return None;
    }
    let ghost digits = chars@.subrange(start as int, chars.len() as int);
    assert(digits == (if chars@.len() > 0 && (chars@[0] == '-' || chars@[0] == '+') { chars@.drop_first() } else { chars@ }));
    let mut value: i64 = 0;
    let mut i: usize = start;
    while i < chars.len()
        invariant
            start <= i <= chars.len(),
            digits == chars@.subrange(start as int, chars.len() as int),
            digits.len() > 0,
            chars@ == text@,
            negative == (chars@.len() > 0 && chars@[0] == '-'),
            digits == (if chars@.len() > 0 && (chars@[0] == '-' || chars@[0] == '+') { chars@.drop_first() } else { chars@ }),
            digits_value(chars@.subrange(start as int, i as int)) == Some(value as nat),
            0 <= value <= 0x8000_0000,
        decreases chars.len() - i,
    {
        let c = chars[i];
        let ghost prefix = chars@.subrange(start as int, i + 1);
        assert(prefix.drop_last() == chars@.subrange(start as int, i as int));
        assert(prefix.last() == c);
        if !('0' <= c && c <= '9') {
            proof {
                if digits_value(digits) is Some {
                    lemma_digits_grow(digits, i + 1 - start);
                    assert(digits.subrange(0, i + 1 - start) == prefix);
                }
            }
            return None;
        }
        let next = value * 10 + ((c as u32) - ('0' as u32)) as i64;
        if next > 0x8000_0000 {
            proof {
                if digits_value(digits) is Some {
                    lemma_digits_grow(digits, i + 1 - start);
                    assert(digits.subrange(0, i + 1 - start) == prefix);
                }
            }
            return None;
        }
        value = next;
        i = i + 1;
    }
    assert(chars@.subrange(start as int, chars.len() as int) == digits);
    if negative {
        Some((-value) as i32)
    } else if value <= 0x7fff_ffff {
        Some(value as i32)
    } else {
        None
    }
}

/// What `enter` decides.
#[derive(Debug, Clone, Copy, PartialEq, Eq, Structural)]
pub enum Enter {
    /// The argument is missing or not a number.
    NotValid,
    /// There are no boards.
    NoBoards,
    /// The number is not that of a board.
    OutOfRange,
    /// Move the user into this board.
    Go(i32),
}

/// Decide what `enter` does with its arguments, where `count` boards exist,
/// numbered from 1: the first argument names the board.
pub fn enter(args: &Vec<String>, count: i32) -> (r: Enter)
    ensures
        r == (if args@.len() == 0 {
            Enter::NotValid
        } else {
            match i32_value(args@[0]@) {
                None => Enter::NotValid,
                Some(n) => if count == 0 {
                    Enter::NoBoards
                } else if n < 1 || n > count {
                    Enter::OutOfRange
                } else {
                    Enter::Go(n as i32)
                },
            }
        }),
{
    if args.len() == 0 {
        return Enter::NotValid;
    }
    match parse_i32(args[0].as_str()) {
        None => Enter::NotValid,
        Some(n) => if count == 0 {
            Enter::NoBoards
        } else if n < 1 || n > count {
            Enter::OutOfRange
        } else {
            Enter::Go(n)
        },
    }
}


/// The mark before a board in the list: `!` where it has unread posts, `*`
/// where the user is, and a space after any mark.
pub open spec fn board_mark(unread: bool, here: bool) -> Seq<char> {
    let m = (if unread { seq!['!'] } else { Seq::<char>::empty() }) + (if here { seq!['*'] } else { Seq::<char>::empty() });
    if m.len() > 0 { m.push(' ') } else { m }
}

/// The lines of the board list after its heading.
pub open spec fn board_lines(boards: Seq<(i32, String)>, unread: Seq<bool>, in_board: Option<i32>) -> Seq<Seq<char>>
    decreases boards.len(),
{
    if boards.len() == 0 {
        Seq::empty()
    } else {
        let k = boards.len() - 1;
        board_lines(boards.drop_last(), unread, in_board).push(
            board_mark(unread[k], in_board == Some(boards[k].0)) + boards[k].1@,
        )
    }
}

/// The board list: each board with its marks, and a legend where the user is
/// in a board.
pub open spec fn board_list(boards: Seq<(i32, String)>, unread: Seq<bool>, in_board: Option<i32>) -> Seq<Seq<char>> {
    if boards.len() == 0 {
        seq![NO_BOARDS@]
    } else {
        let listed = seq!["Boards:"@, Seq::<char>::empty()] + board_lines(boards, unread, in_board);
        if in_board is Some {
            let legend = listed + seq![Seq::<char>::empty(), "* You are here."@];
            if exists|k: int| 0 <= k < unread.len() && unread[k] {
                legend.push("! Board has unread messages."@)
            } else {
                legend
            }
        } else {
            listed
        }
    }
}

/// List the boards, given each board's number and description and whether it
/// has unread posts for the user.
pub fn lister(boards: &Vec<(i32, String)>, unread: &Vec<bool>, in_board: Option<i32>) -> (r: Vec<String>)
    requires
        boards.len() == unread.len(),
    ensures
        string_views(r@) == board_list(boards@, unread@, in_board),
{
    if boards.len() == 0 {
        let r = vec![NO_BOARDS.to_owned()];
        assert(string_views(r@) =~= seq![NO_BOARDS@]);
        return r;
    }
    let mut out: Vec<String> = vec!["Boards:".to_owned(), String::new()];
    let ghost head = string_views(out@);
    let mut any_unread = false;
    let mut i: usize = 0;
    assert(boards@.subrange(0, 0) == Seq::<(i32, String)>::empty());
    while i < boards.len()
        invariant
            i <= boards.len(),
            boards.len() == unread.len(),
            string_views(out@) == head + board_lines(boards@.subrange(0, i as int), unread@, in_board),
            any_unread == exists|k: int| 0 <= k < i && unread@[k],
        decreases boards.len() - i,
    {
        let ghost before = string_views(out@);
        let ghost part = boards@.subrange(0, i + 1);
        assert(part.drop_last() == boards@.subrange(0, i as int));
        assert(board_lines(part, unread@, in_board) == board_lines(boards@.subrange(0, i as int), unread@, in_board).push(
            board_mark(unread@[i as int], in_board == Some(boards@[i as int].0)) + boards@[i as int].1@,
        ));
        let (id, label) = &boards[i];
        let here = match in_board {
            Some(b) => b == *id,
            None => false,
        };
        let mut mark: Vec<char> = Vec::new();
        if unread[i] {
            mark.push('!');
            any_unread = true;
        }
        if here {
            mark.push('*');
        }
        if mark.len() > 0 {
            mark.push(' ');
        }
        let line = concat(string_of(&mark).as_str(), label.as_str());
        assert(mark@ == board_mark(unread@[i as int], here));
        out.push(line);
        assert(string_views(out@) =~= before.push(line@));
        i = i + 1;
    }
    assert(boards@.subrange(0, boards.len() as int) == boards@);
    assert(head =~= seq!["Boards:"@, Seq::<char>::empty()]);
    if in_board.is_some() {
        let ghost before = string_views(out@);
        out.push(String::new());
        out.push("* You are here.".to_owned());
        assert(string_views(out@) =~= before + seq![Seq::<char>::empty(), "* You are here."@]);
        if any_unread {
            let ghost before2 = string_views(out@);
            out.push("! Board has unread messages.".to_owned());
            assert(string_views(out@) =~= before2.push("! Board has unread messages."@));
        }
    }
    out
}

} // verus!
