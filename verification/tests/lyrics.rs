use lyra::lyrics::{parse_lrc, LyricLine};

fn tl(mm: u32, ss: u32, cs: u32, text: &str) -> String {
    format!("[{:02}:{:02}.{:02}]{}", mm, ss, cs, text)
}

/// The time of a line in seconds, as a float.
fn secs(line: &LyricLine) -> Option<f64> {
    line.time.as_ref().map(|t| {
        let s: f64 = format!("{}.{}", t.seconds, t.fraction).parse().unwrap();
        t.minutes as f64 * 60.0 + s
    })
}

#[test]
fn parses_three_line_synced_lyric() {
    let lrc = format!(
        "{}\n{}\n{}",
        tl(0, 1, 0, "Line one"),
        tl(0, 15, 50, "Line two"),
        tl(1, 2, 10, "Line three"),
    );
    let lines = parse_lrc(&lrc);
    assert_eq!(lines.len(), 3);
    assert!((secs(&lines[0]).unwrap() - 1.0).abs() < 0.01);
    assert_eq!(lines[0].text, "Line one");
    assert!((secs(&lines[1]).unwrap() - 15.5).abs() < 0.01);
    assert_eq!(lines[1].text, "Line two");
    assert!((secs(&lines[2]).unwrap() - 62.1).abs() < 0.01);
    assert_eq!(lines[2].text, "Line three");
}

#[test]
fn multi_timestamp_line_expands() {
    let lrc = "[00:05.00][00:30.00]Chorus";
    let lines = parse_lrc(lrc);
    assert_eq!(lines.len(), 2);
    assert!((secs(&lines[0]).unwrap() - 5.0).abs() < 0.01);
    assert_eq!(lines[0].text, "Chorus");
    assert!((secs(&lines[1]).unwrap() - 30.0).abs() < 0.01);
    assert_eq!(lines[1].text, "Chorus");
}

#[test]
fn skips_id_tags_and_blank_lines() {
    let lrc = "[ti:My Song]\n[ar:Some Artist]\n[al:Album]\n[by:Creator]\n[length:3:00]\n\n[00:01.00]Real line";
    let lines = parse_lrc(lrc);
    assert_eq!(lines.len(), 1);
    assert_eq!(lines[0].text, "Real line");
}

#[test]
fn malformed_bracket_ignored_gracefully() {
    let lrc = "[xx]gibberish\n[00:02.00]Good line";
    let lines = parse_lrc(lrc);
    let timed: Vec<_> = lines.iter().filter(|l| l.time.is_some()).collect();
    assert_eq!(timed.len(), 1);
    assert_eq!(timed[0].text, "Good line");
}

#[test]
fn sorts_ascending_by_time() {
    let lrc = "[00:30.00]Second\n[00:05.00]First";
    let lines = parse_lrc(&lrc);
    assert_eq!(lines.len(), 2);
    assert!((secs(&lines[0]).unwrap() - 5.0).abs() < 0.01);
    assert_eq!(lines[0].text, "First");
    assert!((secs(&lines[1]).unwrap() - 30.0).abs() < 0.01);
    assert_eq!(lines[1].text, "Second");
}

#[test]
fn handles_mm_ss_no_centiseconds() {
    let lrc = "[00:45]Verse";
    let lines = parse_lrc(lrc);
    assert_eq!(lines.len(), 1);
    assert!((secs(&lines[0]).unwrap() - 45.0).abs() < 0.01);
}

// ── further cases ───────────────────────────────────────────────────────────

#[test]
fn untimed_lines_go_last_and_keep_their_order() {
    let lrc = "plain one\n[00:10]timed\n[zz]plain two\r\n[00:03.5]early";
    let lines = parse_lrc(lrc);
    let texts: Vec<&str> = lines.iter().map(|l| l.text.as_str()).collect();
    assert_eq!(texts, vec!["early", "timed", "plain one", "plain two"]);
    assert!(lines[2].time.is_none() && lines[3].time.is_none());
}

#[test]
fn equal_times_keep_text_order_and_fractions_compare_as_decimals() {
    let lrc = "[00:01.5]b\n[00:01.50]a\n[00:01.05]c\n[01:00]d\n[00:59.99]e";
    let texts: Vec<String> = parse_lrc(lrc).into_iter().map(|l| l.text).collect();
    assert_eq!(texts, vec!["c", "b", "a", "e", "d"]);
}

#[test]
fn id_tags_are_case_insensitive_and_offset_is_skipped() {
    let lrc = "[TI:x]\n[Offset:+200]\n[00:01]ok";
    let lines = parse_lrc(lrc);
    assert_eq!(lines.len(), 1);
    assert_eq!(lines[0].text, "ok");
}

#[test]
fn timestamp_fields_are_kept_exactly() {
    let lines = parse_lrc("[ 2 : +07.250 ]  words here  ");
    assert_eq!(lines.len(), 1);
    let t = lines[0].time.as_ref().unwrap();
    assert_eq!((t.minutes, t.seconds.as_str(), t.fraction.as_str()), (2, "07", "250"));
    assert_eq!(lines[0].text, "words here");
}

#[test]
fn timestamp_only_line_gives_empty_text() {
    let lines = parse_lrc("[00:12.00]");
    assert_eq!(lines.len(), 1);
    assert_eq!(lines[0].text, "");
}

#[test]
fn empty_input_gives_no_lines() {
    assert!(parse_lrc("").is_empty());
    assert!(parse_lrc("\n\n  \n").is_empty());
}

#[test]
fn huge_whole_seconds_are_still_times() {
    let lrc = "[00:99999999999999999999]far\n[00:99999999999999999998.5]nearly\n[1:00]early\nplain";
    let lines = parse_lrc(lrc);
    let texts: Vec<&str> = lines.iter().map(|l| l.text.as_str()).collect();
    assert_eq!(texts, vec!["early", "nearly", "far", "plain"]);
    assert_eq!(lines[2].time.as_ref().unwrap().seconds, "99999999999999999999");
    // Minutes count as 60 seconds each, exactly.
    let lines = parse_lrc("[0:61]b\n[1:00.9]a\n[01:0]c");
    let texts: Vec<&str> = lines.iter().map(|l| l.text.as_str()).collect();
    assert_eq!(texts, vec!["c", "a", "b"]);
}
