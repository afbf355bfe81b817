use theca::item::{Item, Status};
use theca::listing::{find_notes, select_notes};
use theca::mirror::{body_for, parse_front_matter, title_for};
use theca::profile::ProfileFlags;
use theca::utils::{sanitize_filename, status_for, trim_bounds};

/// A small generator of numbers, the same at each run.
struct Numbers(u64);

impl Numbers {
    fn next(&mut self) -> u64 {
        self.0 = self.0.wrapping_mul(6364136223846793005).wrapping_add(1442695040888963407);
        self.0 >> 33
    }

    fn below(&mut self, n: usize) -> usize {
        (self.next() % n as u64) as usize
    }

    fn text(&mut self, pieces: &[&str], max: usize) -> String {
        let n = self.below(max + 1);
        let mut s = String::new();
        for _ in 0..n {
            s.push_str(pieces[self.below(pieces.len())]);
        }
        s
    }
}

fn status_by_std(word: &str) -> Option<Status> {
    match word {
        "started" | "Started" => Some(Status::Started),
        "urgent" | "Urgent" => Some(Status::Urgent),
        "done" | "Done" => Some(Status::Done),
        "blank" | "Blank" | "none" => Some(Status::Blank),
        _ => None,
    }
}

type Parsed = (Option<usize>, Option<String>, Option<Status>, String);

fn parse_by_std(content: &str) -> Option<Parsed> {
    if !content.starts_with("---\n") {
        return None;
    }
    let parts: Vec<&str> = content.splitn(3, "---\n").collect();
    if parts.len() != 3 {
        return None;
    }
    let mut id = None;
    let mut title = None;
    let mut status = None;
    for line in parts[1].lines() {
        if line.starts_with("id: ") {
            id = line[4..].parse::<usize>().ok();
        } else if line.starts_with("title: ") {
            title = Some(line[7..].to_string());
        } else if line.starts_with("status: ") {
            let word = line[8..].trim();
            status = if word.is_empty() { None } else { status_by_std(word) };
        }
    }
    Some((id, title, status, parts[2].to_string()))
}

fn parse_by_library(content: &str) -> Option<Parsed> {
    parse_front_matter(content).map(|p| (p.fields.id, p.fields.title, p.fields.status, p.body))
}

fn title_by_std(filename: &str) -> String {
    let mut title = if filename.ends_with(".md") {
        filename[..filename.len() - 3].to_string()
    } else {
        filename.to_string()
    };
    if let Some(pos) = title.find('-') {
        if title[..pos].chars().all(|c| c.is_ascii_digit()) {
            title = title[pos + 1..].to_string();
        }
    }
    title
}

fn sanitize_by_std(name: &str) -> String {
    name.chars()
        .map(|c| match c {
            'a'..='z' | 'A'..='Z' | '0'..='9' | '-' | '_' | ' ' => c,
            _ => '_',
        })
        .collect::<String>()
        .trim()
        .to_string()
}

const FRONT: &[&str] = &[
    "---\n", "---", "--", "-", "\n", "\r\n", "\r", " ", "id: ", "id:", "title: ", "status: ",
    "last_touched: ", "1", "42", "+7", "x", "done", "Started", "urgent", "none", "\t", "é", "::",
];

#[test]
fn front_matter_is_read_as_std_reads_it() {
    let mut numbers = Numbers(7);
    let mut with_front_matter = 0;
    for round in 0..4000 {
        let mut content = numbers.text(FRONT, 14);
        if round % 2 == 0 {
            content = format!("---\n{}", content);
        }
        let expected = parse_by_std(&content);
        if expected.is_some() {
            with_front_matter += 1;
        }
        assert_eq!(parse_by_library(&content), expected, "{:?}", content);
        let body = match &expected {
            Some(parsed) => parsed.3.clone(),
            None => content.clone(),
        };
        assert_eq!(body_for(&content), body, "{:?}", content);
    }
    assert!(with_front_matter > 200);
}

#[test]
fn hand_picked_front_matter_is_read_as_std_reads_it() {
    let cases = [
        "---\nid: 1\n---\n",
        "---\nid: 1\r\n---\n",
        "---\nid: 1\r---\n",
        "---\nid: 1\n\n\ntitle: a\n---\nb",
        "---\ntitle: a\r\r\n---\n",
        "---\nstatus: \u{a0}Done\u{2003}\n---\n",
        "---\nstatus: Done\r\n---\n",
        "---\nid:  1\n---\n",
        "---\nid: 1 \n---\n",
        "---\nid: 18446744073709551615\n---\n",
        "---\nid: 18446744073709551616\n---\n",
        "---\nid: 00000000000000000000000000001\n---\n",
        "---\n---\n---\n---\n",
        "---\n\r\n---\n",
        "---\nid: 3",
        "---\nid: 3\n---",
    ];
    for content in cases {
        assert_eq!(parse_by_library(content), parse_by_std(content), "{:?}", content);
    }
}

#[test]
fn titles_come_from_names_as_std_cuts_them() {
    let pieces: &[&str] = &["-", "1", "23", "a", "b c", ".md", ".", "md", "é", " "];
    let mut numbers = Numbers(11);
    for _ in 0..3000 {
        let name = numbers.text(pieces, 6);
        assert_eq!(title_for(&name), title_by_std(&name), "{:?}", name);
    }
}

#[test]
fn names_are_made_safe_as_std_makes_them() {
    let pieces: &[&str] = &[" ", "a", "Z", "0", "-", "_", "/", "\t", "\n", "é", "♥", ".", "\u{a0}"];
    let mut numbers = Numbers(13);
    for _ in 0..3000 {
        let name = numbers.text(pieces, 8);
        assert_eq!(sanitize_filename(&name), sanitize_by_std(&name), "{:?}", name);
    }
}

#[test]
fn trimming_agrees_with_std() {
    let pieces: &[&str] =
        &[" ", "\t", "\n", "\r", "\u{a0}", "\u{2003}", "\u{3000}", "\u{200b}", "a", "é", "-", "\u{85}"];
    let mut numbers = Numbers(17);
    for _ in 0..3000 {
        let text = numbers.text(pieces, 8);
        let v: Vec<char> = text.chars().collect();
        let (a, b) = trim_bounds(&v, 0, v.len());
        let got: String = v[a..b].iter().collect();
        assert_eq!(got, text.trim(), "{:?}", text);
        assert_eq!(a, v.len() - text.trim_start().chars().count(), "{:?}", text);
    }
}

#[test]
fn status_words_agree() {
    let words = [
        "started", "Started", "urgent", "Urgent", "done", "Done", "blank", "Blank", "none", "None",
        "", "DONE", "start", "startedd", " done",
    ];
    for word in words {
        assert_eq!(status_for(word), status_by_std(word), "{:?}", word);
    }
}

fn notes(numbers: &mut Numbers, count: usize) -> Vec<Item> {
    let stamps = [
        "2024-05-01 10:00:00 +0000",
        "2024-05-01 12:00:00 +0200",
        "2024-05-01 10:00:01 +0000",
        "2023-12-31 23:59:59 -0100",
        "2024-05-01 10:00:00.5 +0000",
        "never",
    ];
    let statuses = [Status::Blank, Status::Started, Status::Urgent, Status::Done];
    let words: &[&str] = &["a", "b", "ab", "ba", " ", "", "é"];
    (0..count)
        .map(|i| Item {
            id: i + 1,
            title: numbers.text(words, 3),
            status: statuses[numbers.below(4)],
            body: numbers.text(words, 3),
            last_touched: stamps[numbers.below(stamps.len())].to_string(),
        })
        .collect()
}

fn ids(notes: &[Item]) -> Vec<usize> {
    notes.iter().map(|n| n.id).collect()
}

#[test]
fn listings_agree_with_std_sorting() {
    let now = (1714557600, 0);
    let mut numbers = Numbers(19);
    for _ in 0..300 {
        let count = numbers.below(9);
        let all = notes(&mut numbers, count);
        let limit = numbers.below(6);
        let datesort = numbers.below(2) == 0;
        let reverse = numbers.below(2) == 0;
        let status = match numbers.below(5) {
            0 => Some(Status::Blank),
            1 => Some(Status::Started),
            2 => Some(Status::Urgent),
            3 => Some(Status::Done),
            _ => None,
        };
        let mut expected: Vec<Item> = all.clone();
        if let Some(s) = status {
            expected.retain(|n| n.status == s);
        }
        let shown =
            if limit != 0 && limit < expected.len() { limit } else { expected.len() };
        if datesort {
            expected.sort_by_key(|n| {
                theca::clock::parse_last_touched(&n.last_touched).unwrap_or(now)
            });
        }
        if reverse {
            expected.reverse();
        }
        expected.truncate(shown);
        let flags = ProfileFlags { datesort, reverse, ..ProfileFlags::default() };
        assert_eq!(ids(&select_notes(&all, limit, &flags, status, now)), ids(&expected));
    }
}

#[test]
fn searches_agree_with_std() {
    let mut numbers = Numbers(23);
    let words: &[&str] = &["a", "b", "ab", "", "é", " "];
    for _ in 0..300 {
        let count = numbers.below(9);
        let all = notes(&mut numbers, count);
        let pattern = numbers.text(words, 2);
        let in_body = numbers.below(2) == 0;
        let expected: Vec<usize> = all
            .iter()
            .filter(|n| if in_body { n.body.contains(&pattern) } else { n.title.contains(&pattern) })
            .map(|n| n.id)
            .collect();
        assert_eq!(ids(&find_notes(&all, &pattern, false, in_body).unwrap()), expected);
    }
}
