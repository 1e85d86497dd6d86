use test_assets::{HashList, Sha256Hash, TaError};

const H1: &str = "ba7816bf8f01cfea414140de5dae2223b00361a396177a9cb410ff61f20015ad";
const H2: &str = "b94d27b9934d3e08a52e52d7da7dabfac484efe37a5380ee9088f7ace2efcde9";
const H3: &str = "e3b0c44298fc1c149afbf4c8996fb92427ae41e4649b934ca495991b7852b855";

fn hash(text: &str) -> Sha256Hash {
    Sha256Hash::from_hex(text).unwrap()
}

fn text_of(list: &HashList) -> String {
    let mut out = String::new();
    list.to_writer(&mut out);
    out
}

fn sorted_lines(text: &str) -> Vec<String> {
    let mut lines: Vec<String> = text.lines().map(|l| l.to_string()).collect();
    lines.sort();
    lines
}

#[test]
fn new_list_is_empty() {
    let list = HashList::new();
    assert!(list.get_hash("a.png").is_none());
    assert!(list.get_hash("").is_none());
    assert_eq!(text_of(&list), "");
}

#[test]
fn add_entry_then_get_hash() {
    let mut list = HashList::new();
    list.add_entry("a.png", &hash(H1));
    assert_eq!(list.get_hash("a.png"), Some(&hash(H1)));
    assert!(list.get_hash("b.png").is_none());
    assert!(list.get_hash("a.pn").is_none());
    assert!(list.get_hash("a.png ").is_none());
}

#[test]
fn add_entry_last_write_wins() {
    let mut list = HashList::new();
    list.add_entry("a.png", &hash(H1));
    list.add_entry("b.png", &hash(H2));
    list.add_entry("a.png", &hash(H3));
    assert_eq!(list.get_hash("a.png"), Some(&hash(H3)));
    assert_eq!(list.get_hash("b.png"), Some(&hash(H2)));
    assert_eq!(text_of(&list).lines().count(), 2);
}

#[test]
fn add_entry_leaves_other_names_alone() {
    let mut list = HashList::new();
    for (i, name) in ["a", "b", "c", "d"].iter().enumerate() {
        list.add_entry(name, &hash([H1, H2, H3, H1][i]));
    }
    list.add_entry("c", &hash(H2));
    assert_eq!(list.get_hash("a"), Some(&hash(H1)));
    assert_eq!(list.get_hash("b"), Some(&hash(H2)));
    assert_eq!(list.get_hash("c"), Some(&hash(H2)));
    assert_eq!(list.get_hash("d"), Some(&hash(H1)));
}

#[test]
fn from_reader_comment_and_one_entry() {
    let text = format!("#comment\n{} name\n", H1);
    let list = HashList::from_reader(&text).unwrap();
    assert_eq!(list.get_hash("name"), Some(&hash(H1)));
    assert_eq!(text_of(&list), format!("{} name\n", H1));
}

#[test]
fn from_reader_empty_text() {
    let list = HashList::from_reader("").unwrap();
    assert_eq!(text_of(&list), "");
}

#[test]
fn from_reader_skips_a_line_with_one_token() {
    let text = format!("{}\n{} b.png\n", H1, H2);
    let list = HashList::from_reader(&text).unwrap();
    assert_eq!(text_of(&list), format!("{} b.png\n", H2));
    let alone = HashList::from_reader(H1).unwrap();
    assert_eq!(text_of(&alone), "");
}

#[test]
fn from_reader_skips_a_line_without_space_whatever_it_holds() {
    let text = format!("nothing-here\n{} a.png\nzz\n", H1);
    let list = HashList::from_reader(&text).unwrap();
    assert_eq!(text_of(&list), format!("{} a.png\n", H1));
}

#[test]
fn from_reader_skips_blank_lines() {
    let text = format!("\n{} a.png\n\n\n{} b.png\n\n", H1, H2);
    let list = HashList::from_reader(&text).unwrap();
    assert_eq!(list.get_hash("a.png"), Some(&hash(H1)));
    assert_eq!(list.get_hash("b.png"), Some(&hash(H2)));
    assert_eq!(text_of(&list).lines().count(), 2);
    assert_eq!(text_of(&HashList::from_reader("\n").unwrap()), "");
    assert_eq!(text_of(&HashList::from_reader("\r\n\r\n").unwrap()), "");
}

#[test]
fn from_reader_skips_comments() {
    let text = format!("# {} a.png\n#\n#{} b.png\n{} c.png\n", H1, H2, H3);
    let list = HashList::from_reader(&text).unwrap();
    assert!(list.get_hash("a.png").is_none());
    assert!(list.get_hash("b.png").is_none());
    assert_eq!(list.get_hash("c.png"), Some(&hash(H3)));
    let bad_comment = "# not a hash at all\n#zz zz\n";
    assert_eq!(text_of(&HashList::from_reader(bad_comment).unwrap()), "");
}

#[test]
fn from_reader_refuses_a_malformed_hash() {
    let short = format!("{} a.png\n", &H1[..63]);
    assert!(matches!(HashList::from_reader(&short), Err(TaError::BadHashFormat)));
    let long = format!("{}0 a.png\n", H1);
    assert!(matches!(HashList::from_reader(&long), Err(TaError::BadHashFormat)));
    let no_digit = format!("g{} a.png\n", &H1[1..]);
    assert!(matches!(HashList::from_reader(&no_digit), Err(TaError::BadHashFormat)));
    let words = "not a hash\n";
    assert!(matches!(HashList::from_reader(words), Err(TaError::BadHashFormat)));
}

#[test]
fn from_reader_refuses_the_whole_text_for_one_bad_line() {
    let text = format!("{} a.png\nzz b.png\n{} c.png\n", H1, H3);
    assert!(matches!(HashList::from_reader(&text), Err(TaError::BadHashFormat)));
    let last = format!("{} a.png\nzz b.png", H1);
    assert!(matches!(HashList::from_reader(&last), Err(TaError::BadHashFormat)));
}

#[test]
fn from_reader_refuses_a_line_that_starts_with_a_space() {
    let text = format!(" {} a.png\n", H1);
    assert!(matches!(HashList::from_reader(&text), Err(TaError::BadHashFormat)));
    assert!(matches!(HashList::from_reader(" \n"), Err(TaError::BadHashFormat)));
    let tab = format!("{}\ta.png\n", H1);
    assert_eq!(text_of(&HashList::from_reader(&tab).unwrap()), "");
}

#[test]
fn from_reader_takes_either_case_of_digits() {
    let text = format!("{} a.png\n", H1.to_uppercase());
    let list = HashList::from_reader(&text).unwrap();
    assert_eq!(list.get_hash("a.png"), Some(&hash(H1)));
    assert_eq!(text_of(&list), format!("{} a.png\n", H1));
}

#[test]
fn from_reader_name_ends_at_the_next_space() {
    let text = format!("{} a.png and more\n{}  b.png\n{} \n", H1, H2, H3);
    let list = HashList::from_reader(&text).unwrap();
    assert_eq!(list.get_hash("a.png"), Some(&hash(H1)));
    assert!(list.get_hash("a.png and more").is_none());
    assert!(list.get_hash("b.png").is_none());
    assert_eq!(list.get_hash(""), Some(&hash(H3)));
}

#[test]
fn from_reader_last_line_without_line_feed() {
    let text = format!("{} a.png\n{} b.png", H1, H2);
    let list = HashList::from_reader(&text).unwrap();
    assert_eq!(list.get_hash("a.png"), Some(&hash(H1)));
    assert_eq!(list.get_hash("b.png"), Some(&hash(H2)));
}

#[test]
fn from_reader_line_ends_with_carriage_return_and_line_feed() {
    let text = format!("{} a.png\r\n{} b.png\r\n", H1, H2);
    let list = HashList::from_reader(&text).unwrap();
    assert_eq!(list.get_hash("a.png"), Some(&hash(H1)));
    assert_eq!(list.get_hash("b.png"), Some(&hash(H2)));
    assert!(list.get_hash("a.png\r").is_none());
    let unended = format!("{} c.png\r", H3);
    let list = HashList::from_reader(&unended).unwrap();
    assert_eq!(list.get_hash("c.png\r"), Some(&hash(H3)));
}

#[test]
fn from_reader_later_entry_replaces_the_earlier() {
    let text = format!("{} a.png\n{} b.png\n{} a.png\n", H1, H2, H3);
    let list = HashList::from_reader(&text).unwrap();
    assert_eq!(list.get_hash("a.png"), Some(&hash(H3)));
    assert_eq!(list.get_hash("b.png"), Some(&hash(H2)));
    assert_eq!(text_of(&list).lines().count(), 2);
}

#[test]
fn from_reader_names_beyond_ascii() {
    let text = format!("{} gr\u{fc}n.png\n{} \u{65e5}\u{672c}.bin\n", H1, H2);
    let list = HashList::from_reader(&text).unwrap();
    assert_eq!(list.get_hash("gr\u{fc}n.png"), Some(&hash(H1)));
    assert_eq!(list.get_hash("\u{65e5}\u{672c}.bin"), Some(&hash(H2)));
    assert_eq!(sorted_lines(&text_of(&list)), sorted_lines(&text));
}

#[test]
fn to_writer_one_line_per_entry() {
    let mut list = HashList::new();
    list.add_entry("a.png", &hash(H1));
    assert_eq!(text_of(&list), format!("{} a.png\n", H1));
    list.add_entry("b.png", &hash(H2));
    assert_eq!(
        sorted_lines(&text_of(&list)),
        sorted_lines(&format!("{} a.png\n{} b.png\n", H1, H2))
    );
}

#[test]
fn to_writer_writes_lower_case() {
    let mut list = HashList::new();
    list.add_entry("a.png", &hash(&H1.to_uppercase()));
    assert_eq!(text_of(&list), format!("{} a.png\n", H1));
}

#[test]
fn to_writer_appends_to_what_is_there() {
    let mut list = HashList::new();
    list.add_entry("a.png", &hash(H1));
    let mut out = String::from("# saved\n");
    list.to_writer(&mut out);
    assert_eq!(out, format!("# saved\n{} a.png\n", H1));
    let back = HashList::from_reader(&out).unwrap();
    assert_eq!(back.get_hash("a.png"), Some(&hash(H1)));
}

#[test]
fn written_list_reads_back() {
    let mut list = HashList::new();
    let names = ["a.png", "b.png", "dir-c", "", "x_y.z", "gr\u{fc}n"];
    for (i, name) in names.iter().enumerate() {
        list.add_entry(name, &hash([H1, H2, H3][i % 3]));
    }
    list.add_entry("b.png", &hash(H3));
    let text = text_of(&list);
    let back = HashList::from_reader(&text).unwrap();
    for name in names.iter() {
        assert_eq!(back.get_hash(name), list.get_hash(name));
    }
    assert_eq!(sorted_lines(&text_of(&back)), sorted_lines(&text));
    assert_eq!(text.lines().count(), names.len());
}

#[test]
fn written_name_with_a_space_does_not_read_back() {
    let mut list = HashList::new();
    list.add_entry("two words", &hash(H1));
    let back = HashList::from_reader(&text_of(&list)).unwrap();
    assert!(back.get_hash("two words").is_none());
    assert_eq!(back.get_hash("two"), Some(&hash(H1)));
}

#[test]
fn load_without_a_file_gives_the_empty_list() {
    let list = HashList::load(None).unwrap();
    assert_eq!(text_of(&list), "");
    assert!(list.get_hash("a.png").is_none());
}

#[test]
fn load_reads_the_text_of_the_file() {
    let text = format!("# kept between runs\n{} a.png\n{} b.png\n", H1, H2);
    let list = HashList::load(Some(&text)).unwrap();
    assert_eq!(list.get_hash("a.png"), Some(&hash(H1)));
    assert_eq!(list.get_hash("b.png"), Some(&hash(H2)));
    assert_eq!(text_of(&HashList::load(Some("")).unwrap()), "");
}

#[test]
fn load_refuses_a_malformed_file() {
    assert!(matches!(HashList::load(Some("zz a.png\n")), Err(TaError::BadHashFormat)));
}
