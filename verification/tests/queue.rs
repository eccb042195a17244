use pterminal::git_info::branch_from_head;
use pterminal::notification::NotificationStore;
use pterminal::payload::{generate_ctrl_l_clear_payload, generate_line_flood, generate_ls_like_burst};
use pterminal::port_scanner::detect_ports_in_text;
use pterminal::spsc::{backoff, channel, Backoff, Inner};

#[test]
fn ring_is_first_in_first_out_across_wraps() {
    let mut q: Inner<u32> = channel(3);
    let mut next_in = 0u32;
    let mut next_out = 0u32;
    for round in 0..50 {
        let pushes = 1 + round % 4;
        for _ in 0..pushes {
            if q.try_push(next_in).is_ok() {
                next_in += 1;
            }
        }
        let pops = 1 + (round * 7) % 3;
        for _ in 0..pops {
            if let Some(v) = q.try_pop() {
                assert_eq!(v, next_out);
                next_out += 1;
            }
        }
    }
    while let Some(v) = q.try_pop() {
        assert_eq!(v, next_out);
        next_out += 1;
    }
    assert_eq!(next_in, next_out);
    assert!(next_in > 50);
}

#[test]
fn ring_rounds_capacity_up_and_hands_back_what_does_not_fit() {
    let mut q: Inner<String> = Inner::new(0);
    assert_eq!(q.try_push("a".to_string()), Ok(()));
    assert_eq!(q.try_push("b".to_string()), Err("b".to_string()));
    assert_eq!(q.try_pop(), Some("a".to_string()));
    assert_eq!(q.try_pop(), None);
    let mut q: Inner<u8> = channel(5);
    for i in 0..8 {
        assert_eq!(q.try_push(i), Ok(()));
    }
    assert_eq!(q.try_push(8), Err(8));
    assert_eq!(q.try_pop(), Some(0));
    assert_eq!(q.try_push(8), Ok(()));
    let mut q: Inner<u8> = channel(4);
    for i in 0..4 {
        assert_eq!(q.try_push(i), Ok(()));
    }
    assert_eq!(q.try_push(4), Err(4));
}

#[test]
fn closed_sides_stop_pushes_and_let_the_rest_drain() {
    let mut q: Inner<u8> = channel(2);
    assert!(!q.is_producer_closed() && !q.is_consumer_closed());
    assert_eq!(q.try_push(1), Ok(()));
    q.close_producer();
    assert!(q.is_producer_closed());
    assert!(!q.is_drained());
    assert_eq!(q.try_pop(), Some(1));
    assert!(q.is_drained());
    assert_eq!(q.try_pop(), None);
    let mut q: Inner<u8> = channel(2);
    assert_eq!(q.try_push(1), Ok(()));
    q.close_consumer();
    assert!(q.is_consumer_closed());
    assert_eq!(q.try_push(2), Err(2));
    assert_eq!(q.try_pop(), Some(1));
    assert_eq!(backoff(0), Backoff::Spin);
    assert_eq!(backoff(63), Backoff::Spin);
    assert_eq!(backoff(64), Backoff::Yield);
    assert_eq!(backoff(u32::MAX), Backoff::Yield);
}

#[test]
fn ports_are_found_once_and_ascending() {
    assert_eq!(detect_ports_in_text("http://localhost:3000 and :8080, again :3000"), vec![3000, 8080]);
    assert_eq!(detect_ports_in_text(":65535 :65536 :0 :00080 :123456 :99999 :1"), vec![1, 80, 65535]);
    assert_eq!(detect_ports_in_text("::22:"), vec![22]);
    assert_eq!(detect_ports_in_text("no ports: here :x :"), Vec::<u16>::new());
    assert_eq!(detect_ports_in_text(""), Vec::<u16>::new());
    assert_eq!(detect_ports_in_text("\u{e9}:443\u{4e2d}:12345:6"), vec![6, 443, 12345]);
    assert_eq!(detect_ports_in_text(":8080abc:9"), vec![9, 8080]);
}

#[test]
fn notifications_count_unread_and_number_from_one() {
    let mut store = NotificationStore::new();
    assert_eq!(store.unread_count(), 0);
    let a = store.push("Build", "done");
    let b = store.push("Test", "");
    assert_eq!((a.id, b.id), (1, 2));
    assert_eq!(a.title, "Build");
    assert_eq!(a.body, "done");
    assert!(!a.read);
    assert!(a.created_at_ms > 1_500_000_000_000);
    assert_eq!(store.list()[0].created_at_ms, a.created_at_ms);
    assert_eq!(store.list().len(), 2);
    assert_eq!(store.list()[1].title, "Test");
    assert_eq!(store.unread_count(), 2);
    store.mark_all_read();
    assert_eq!(store.unread_count(), 0);
    assert!(store.list().iter().all(|n| n.read));
    assert_eq!(store.list()[0].body, "done");
    let c = store.push("Later", "x");
    assert_eq!(c.id, 3);
    assert_eq!(store.unread_count(), 1);
    store.clear();
    assert!(store.list().is_empty());
    assert_eq!(store.push("After", "clear").id, 4);
}

#[test]
fn head_names_the_branch_or_the_short_commit() {
    assert_eq!(branch_from_head("ref: refs/heads/main\n"), Some("main".to_string()));
    assert_eq!(branch_from_head("  ref: refs/heads/feature/x-1 \t\n"), Some("x-1".to_string()));
    assert_eq!(branch_from_head("ref: main"), Some("main".to_string()));
    assert_eq!(branch_from_head("ref: refs/heads/"), Some(String::new()));
    assert_eq!(branch_from_head("ref: "), Some("ref:".to_string()));
    assert_eq!(branch_from_head("ref:"), Some("ref:".to_string()));
    assert_eq!(branch_from_head("4b825dc642cb6eb9a060e54bf8d69288fbee4904\n"), Some("4b825dc".to_string()));
    assert_eq!(branch_from_head("abc123\n"), Some("abc123".to_string()));
    assert_eq!(branch_from_head("1234567"), Some("1234567".to_string()));
    assert_eq!(branch_from_head(" \n\t"), None);
    assert_eq!(branch_from_head(""), None);
}

#[test]
fn payloads_are_the_formatted_lines() {
    let mut expected = String::new();
    for i in 0..7usize {
        let n = 3 * 7 + i;
        let kind = if n % 5 == 0 { 'd' } else { '-' };
        let size = 1024 + (n * 37) % 2_000_000;
        let month = ["Jan", "Feb", "Mar", "Apr", "May", "Jun"][n % 6];
        expected.push_str(if kind == 'd' { "\x1b[34m" } else { "\x1b[0m" });
        expected.push_str(&format!(
            "{kind}rw-r--r--  1 user  staff {:>8} {month} {:>2} {:>5} file_{:05}.txt\x1b[0m\r\n",
            size,
            (n % 28) + 1,
            "12:34",
            n
        ));
    }
    assert_eq!(String::from_utf8(generate_ls_like_burst(3, 7)).unwrap(), expected);
    assert_eq!(
        String::from_utf8(generate_ls_like_burst(0, 1)).unwrap(),
        "\x1b[34mdrw-r--r--  1 user  staff     1024 Jan  1 12:34 file_00000.txt\x1b[0m\r\n"
    );
    assert!(generate_ls_like_burst(9, 0).is_empty());
    assert!(String::from_utf8(generate_ls_like_burst(1, 123457)).unwrap().ends_with("file_246913.txt\x1b[0m\r\n"));

    let mut expected = String::new();
    for n in [998usize, 999, 1000, 1001] {
        expected.push_str(&format!(
            "line {:06} | {:08x} {:08x} {:08x} {:08x}\r\n",
            n,
            n.wrapping_mul(17),
            n.wrapping_mul(29),
            n.wrapping_mul(43),
            n.wrapping_mul(59)
        ));
    }
    assert_eq!(String::from_utf8(generate_line_flood(998, 4)).unwrap(), expected);
    let big = u64::MAX as usize - 1;
    assert_eq!(
        String::from_utf8(generate_line_flood(big, 1)).unwrap(),
        format!(
            "line {:06} | {:08x} {:08x} {:08x} {:08x}\r\n",
            big,
            big.wrapping_mul(17),
            big.wrapping_mul(29),
            big.wrapping_mul(43),
            big.wrapping_mul(59)
        )
    );
    assert_eq!(
        String::from_utf8(generate_line_flood(0, 1)).unwrap(),
        "line 000000 | 00000000 00000000 00000000 00000000\r\n"
    );
    assert_eq!(
        generate_ctrl_l_clear_payload(42),
        b"\x1b[H\x1b[2J\x1b[3J\x1b[0muser@host ~/workdir % echo 42\r\n".to_vec()
    );
}
