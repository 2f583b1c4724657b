use catalyzer::logs::{lines, tail_log};

#[test]
fn lines_end_at_line_feeds() {
    assert_eq!(lines("a\nb\r\nc"), vec!["a", "b", "c"]);
    assert_eq!(lines("a\n"), vec!["a"]);
    assert_eq!(lines("a\n\nb\n"), vec!["a", "", "b"]);
    assert_eq!(lines("a\r"), vec!["a\r"]);
    assert_eq!(lines("a\r\r\n"), vec!["a\r"]);
    assert!(lines("").is_empty());
    assert_eq!(lines("\n"), vec![""]);
}

#[test]
fn tail_leaves_out_debug_lines() {
    let log = "[INFO] start\n[DEBUG] noise\n[WARN] careful\r\n[DEBUG] more\n";
    assert_eq!(tail_log(log), vec!["[INFO] start", "[WARN] careful"]);
    assert!(tail_log("").is_empty());
}

#[test]
fn tail_keeps_the_last_twenty() {
    let mut log = String::new();
    for i in 0..30 {
        log.push_str(&format!("[INFO] line {}\n[DEBUG] d {}\n", i, i));
    }
    let tail = tail_log(&log);
    assert_eq!(tail.len(), 20);
    assert_eq!(tail[0], "[INFO] line 10");
    assert_eq!(tail[19], "[INFO] line 29");
}
