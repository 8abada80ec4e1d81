use poembook::book::Book;
use poembook::book_builder::{BookBuilder, Token};
use poembook::config::Config;
use poembook::error::Error;
use poembook::poem::Poem;
use poembook::utils::{parse_book_num, parse_poem_num_impl, re_remove_tags};

fn get_test_poem(nn: u32) -> Poem {
    Poem::new(
        nn,
        vec![
            format!("Qwerty {}-1", nn),
            format!("Qwerty {}-2", nn),
            format!("Qwerty {}-3", nn),
        ],
        vec![
            format!("Йцукен {}-1", nn),
            format!("Йцукен {}-2", nn),
            format!("Йцукен {}-3", nn),
        ],
    )
}

fn get_test_book() -> Book {
    let mut res = Book::new(7);
    res.add(get_test_poem(5));
    res.add(get_test_poem(1));
    res.add(get_test_poem(2));
    res.add(get_test_poem(4));
    res.add(get_test_poem(7));
    res.add(get_test_poem(6));
    res.add(get_test_poem(3));
    res
}

#[test]
fn test_sort() {
    let book = get_test_book();
    println!("{:#?}", book.get_ordered_poems());
    println!("{:#?}", book.get_ordered_poems());
    println!("{:#?}", book);
}

#[test]
fn book_builder_test() {
    let mut builder = BookBuilder::new(7);
    builder.proc_number(1);
    builder.proc_line(String::from("Qwerty 1 1"));
    builder.proc_line(String::from("Qwerty 1 2"));
    builder.proc_line(String::from("Qwerty 1 3"));
    builder.proc_number(2);
    builder.proc_line(String::from("Qwerty 2 1"));
    builder.proc_line(String::from("Qwerty 2 2"));
    builder.proc_line(String::from("Qwerty 2 3"));
    builder.proc_number(1);
    builder.proc_line(String::from("Йцукен 1 1"));
    builder.proc_line(String::from("Йцукен 1 2"));
    builder.proc_line(String::from("Йцукен 1 3"));
    builder.proc_number(2);
    builder.proc_line(String::from("Йцукен 2 1"));
    builder.proc_line(String::from("Йцукен 2 2"));
    builder.proc_line(String::from("Йцукен 2 3"));

    let (book, err_report) = builder.build();

    println!(">>>> Book: {:#?}", book);
    println!(">>>> Error Report: {:#?}", err_report);
}

#[test]
fn test_default_config() {
    let config = Config::default();
    assert_eq!(100, config.thread_num);
    assert_eq!("templates/**/*".to_string(), config.template_pattern);
    assert_eq!("poems_77000.html".to_string(), config.poem_template);
    assert_eq!("problems.html".to_string(), config.problem_template);
    assert_eq!("data/src".to_string(), config.src_dir);
    assert_eq!("data/res".to_string(), config.res_dir);
}

#[test]
fn test_book_num() {
    assert_eq!(7, parse_book_num("Vol. 07.html").unwrap());
}

#[test]
fn test2() {
    let p = get_test_poem(13_234_567);
    println!("Print {}", p.nn_str);
}

#[test]
fn test_poem_num() {
    assert_eq!(3456, parse_poem_num_impl("03,456.").unwrap());
    assert_eq!(1000, parse_poem_num_impl("01&#160;000.").unwrap());
}

#[test]
fn formatted_id_short() {
    assert_eq!("7", Poem::nn_str(7, " "));
}

#[test]
fn formatted_id_grouped() {
    assert_eq!("1 234 567", Poem::nn_str(1234567, " "));
    assert_eq!("12 345", Poem::nn_str(12345, " "));
    assert_eq!("123", Poem::nn_str(123, " "));
    assert_eq!("0", Poem::nn_str(0, " "));
}

fn poem_by_nn(book: &Book, nn: u32) -> Poem {
    for p in book.get_ordered_poems() {
        if p.nn == nn {
            return Poem::new(p.nn, p.en.clone(), p.ru.clone());
        }
    }
    panic!("no poem with id {}", nn);
}

#[test]
fn end_to_end_two_poems() {
    let mut b = BookBuilder::new(1);
    b.proc_number(1);
    b.proc_line(String::from("A1"));
    b.proc_line(String::from("A2"));
    b.proc_number(2);
    b.proc_line(String::from("B1"));
    b.proc_number(1);
    b.proc_line(String::from("A1-tr"));
    b.proc_number(2);
    b.proc_line(String::from("B1-tr"));
    let (book, report) = b.build();
    let book = book.unwrap();
    assert_eq!(2, book.poems.len());
    let p1 = poem_by_nn(&book, 1);
    assert_eq!(vec!["A1".to_string(), "A2".to_string()], p1.en);
    assert_eq!(vec!["A1-tr".to_string()], p1.ru);
    let p2 = poem_by_nn(&book, 2);
    assert_eq!(vec!["B1".to_string()], p2.en);
    assert_eq!(vec!["B1-tr".to_string()], p2.ru);
    assert!(report.errors.is_empty());
}

#[test]
fn ordered_poems_idempotent() {
    let book = get_test_book();
    let first: Vec<u32> = book.get_ordered_poems().iter().map(|p| p.nn).collect();
    let second: Vec<u32> = book.get_ordered_poems().iter().map(|p| p.nn).collect();
    assert_eq!(first, second);
    assert_eq!(vec![1, 2, 3, 4, 5, 6, 7], first);
}

#[test]
fn duplicate_poem_reported_and_book_unchanged() {
    let mut b = BookBuilder::new(3);
    b.proc_number(1);
    b.proc_line(String::from("first"));
    b.proc_number(1);
    b.proc_line(String::from("second"));
    b.proc_number(1);
    b.proc_line(String::from("third"));
    let (book, report) = b.build();
    let book = book.unwrap();
    assert_eq!(1, book.poems.len());
    let p = poem_by_nn(&book, 1);
    assert_eq!(vec!["first".to_string()], p.en);
    assert_eq!(vec!["second".to_string()], p.ru);
    assert_eq!(vec!["DuplicatePoem: 1".to_string()], report.errors);
}

#[test]
fn orphan_line_reported_then_stream_goes_on() {
    let mut b = BookBuilder::new(3);
    b.proc_line(String::from("stray"));
    b.proc_number(1);
    b.proc_line(String::from("a"));
    b.proc_number(1);
    b.proc_line(String::from("b"));
    let (book, report) = b.build();
    let book = book.unwrap();
    let p = poem_by_nn(&book, 1);
    assert_eq!(vec!["a".to_string()], p.en);
    assert_eq!(vec!["b".to_string()], p.ru);
    assert_eq!(vec!["OrphanLine: stray".to_string()], report.errors);
}

#[test]
fn unpaired_draft_reported_and_absent() {
    let mut b = BookBuilder::new(3);
    b.proc_number(9);
    b.proc_line(String::from("lonely"));
    let (book, report) = b.build();
    let book = book.unwrap();
    assert!(book.poems.is_empty());
    assert_eq!(vec!["NoTranslationForPoem: 9".to_string()], report.errors);
}

#[test]
fn empty_stream_yields_no_book() {
    let b = BookBuilder::new(4);
    let (book, report) = b.build();
    assert!(book.is_none());
    assert_eq!(vec!["NoPoemsInBook: 4".to_string()], report.errors);
}

#[test]
fn sentinel_id_on_bad_marker() {
    let mut b = BookBuilder::new(4);
    let n = b.parse_poem_num("no digits here");
    assert_eq!(0, n);
    assert_eq!(vec!["NumberParseFailure: no digits here".to_string()], b.report.errors);
}

#[test]
fn number_parse_failure_cases() {
    assert!(parse_poem_num_impl("").is_err());
    assert!(parse_poem_num_impl("&#160;").is_err());
    assert!(parse_poem_num_impl("99999999999").is_err());
    assert_eq!(1, parse_poem_num_impl("0000000001").unwrap());
}

#[test]
fn book_num_error_case() {
    let e = parse_book_num("Vol.html").unwrap_err();
    assert_eq!("UnexpectedFilename: Vol.html", e.describe());
}

#[test]
fn remove_tags_cases() {
    assert_eq!("abc", re_remove_tags("<i>abc</i>"));
    assert_eq!("a<b", re_remove_tags("a<b"));
    assert_eq!("", re_remove_tags("<br/>"));
}

#[test]
fn error_descriptions() {
    assert_eq!("DuplicatePoem: 5", Error::DuplicatePoem { number: 5 }.describe());
    assert_eq!(
        "Custom: boom",
        Error::custom(String::from("boom")).describe()
    );
}

#[test]
fn parse_book_from_tokens() {
    let tokens = vec![
        Token::Number(String::from("01.")),
        Token::Line(String::from("line one")),
        Token::Number(String::from("01&#160;")),
        Token::Line(String::from("строка")),
    ];
    let (book, report) = poembook::book_builder::parse_book(7, &tokens);
    let book = book.unwrap();
    assert_eq!(1, book.poems.len());
    let p = poem_by_nn(&book, 1);
    assert_eq!(vec!["line one".to_string()], p.en);
    assert_eq!(vec!["строка".to_string()], p.ru);
    assert!(report.errors.is_empty());
}

#[test]
fn check_if_error_records_failure() {
    let mut b = BookBuilder::new(2);
    let r = b.check_if_error(|| Err(Error::custom(String::from("bad"))));
    assert!(r.is_ok());
    assert_eq!(vec!["Custom: bad".to_string()], b.report.errors);
    let r2 = b.check_if_error(|| Ok(()));
    assert!(r2.is_ok());
    assert_eq!(1, b.report.errors.len());
}
