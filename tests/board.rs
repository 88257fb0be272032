use frozenbbs::board::{
    current, enter, has_unread, next, parse_i32, post_print, previous, quick, quick_banner, Enter,
    PostRef, Quick, Step,
};

fn post(id: i32, at: i64) -> PostRef {
    PostRef { id, created_at_us: at, author_banned: false }
}

#[test]
fn next_walks_forward_then_stops() {
    let board3 = vec![post(1, 100), post(2, 200)];
    let s = next(&board3, 0);
    assert_eq!(s, Step { post: Some(0), cursor: 100 });
    let s = next(&board3, s.cursor);
    assert_eq!(s, Step { post: Some(1), cursor: 200 });
    let s = next(&board3, s.cursor);
    assert_eq!(s.post, None);
    assert_eq!(s.cursor, 201);
    assert_eq!(next(&board3, 201), Step { post: None, cursor: 201 });
}

#[test]
fn previous_at_the_oldest_post_settles() {
    let posts = vec![post(1, 100), post(2, 200)];
    assert_eq!(previous(&posts, 200), Step { post: Some(0), cursor: 100 });
    let s = previous(&posts, 100);
    assert_eq!(s, Step { post: None, cursor: 99 });
    assert_eq!(previous(&posts, s.cursor), s);
    assert_eq!(previous(&posts, 0), Step { post: None, cursor: 0 });
}

#[test]
fn current_needs_a_post_at_the_cursor() {
    let posts = vec![post(1, 100), post(2, 200)];
    assert_eq!(current(&posts, 200), Some(1));
    assert_eq!(current(&posts, 0), None);
    assert_eq!(current(&posts, 150), None);
}

#[test]
fn fetches_skip_posts_from_jackass_users() {
    let posts = vec![
        post(1, 1_000),
        PostRef { id: 2, created_at_us: 2_000, author_banned: true },
        post(3, 3_000),
    ];
    assert_eq!(next(&posts, 1_000).post, Some(2));
    assert_eq!(current(&posts, 1_000), Some(0));
    assert_eq!(current(&posts, 2_000), None);
    assert_eq!(previous(&posts, 3_000).post, Some(0));
    assert_eq!(posts.len(), 3);
}

#[test]
fn quick_moves_to_the_next_board_with_unread_posts() {
    let boards = vec![vec![post(1, 10)], vec![post(2, 20)], vec![post(3, 30), post(4, 40)]];
    let cursors = vec![10, 20, 0];
    let q = quick(&boards, &cursors, Some(2));
    assert_eq!(q, Quick::Found { board: 3, post: 0, cursor: 30, moved: true });
    assert_eq!(quick_banner("Board three"), vec!["In Board three:", ""]);
}

#[test]
fn quick_looks_at_the_current_board_first_and_wraps() {
    let boards = vec![vec![post(1, 10)], vec![post(2, 20)], vec![post(3, 30)]];
    let q = quick(&boards, &vec![0, 0, 0], Some(2));
    assert_eq!(q, Quick::Found { board: 2, post: 0, cursor: 20, moved: false });
    let q = quick(&boards, &vec![0, 20, 30], Some(2));
    assert_eq!(q, Quick::Found { board: 1, post: 0, cursor: 10, moved: true });
    let q = quick(&boards, &vec![0, 0, 0], None);
    assert_eq!(q, Quick::Found { board: 1, post: 0, cursor: 10, moved: true });
    assert_eq!(quick(&boards, &vec![10, 20, 30], Some(3)), Quick::NoUnread);
    assert_eq!(quick(&Vec::new(), &Vec::new(), None), Quick::NoUnread);
}

#[test]
fn unread_means_a_shown_newer_post() {
    let posts = vec![post(1, 10), PostRef { id: 2, created_at_us: 20, author_banned: true }];
    assert!(has_unread(&posts, 0));
    assert!(!has_unread(&posts, 10));
}

#[test]
fn enter_checks_the_board_number() {
    let args = |s: &str| vec![s.to_string()];
    assert_eq!(enter(&args("2"), 3), Enter::Go(2));
    assert_eq!(enter(&args("+3"), 3), Enter::Go(3));
    assert_eq!(enter(&args("4"), 3), Enter::OutOfRange);
    assert_eq!(enter(&args("0"), 3), Enter::OutOfRange);
    assert_eq!(enter(&args("two"), 3), Enter::NotValid);
    assert_eq!(enter(&Vec::new(), 3), Enter::NotValid);
    assert_eq!(enter(&args("1"), 0), Enter::NoBoards);
}

#[test]
fn numbers_parse_like_std() {
    for s in ["0", "-7", "+12", "2147483647", "-2147483648", "", "-", "2147483648", "1x", "007"] {
        assert_eq!(parse_i32(s), s.parse::<i32>().ok(), "{s}");
    }
}

#[test]
fn posts_show_author_time_and_lines() {
    let out = post_print("!00000001/ab:Alice", "2025-01-01T00:00:00", "hello\nworld");
    assert_eq!(
        out,
        vec!["From: !00000001/ab:Alice", "At: 2025-01-01T00:00:00", "", "hello", "", "world"]
    );
}
