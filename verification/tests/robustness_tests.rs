use search_index::extract::{document_from_bytes, document_from_html};
use search_index::error::ExtractionError;
use search_index::lexer::tokenize;

fn chars(s: &str) -> Vec<char> {
    s.chars().collect()
}

#[test]
fn odd_pages_still_give_a_record() {
    let pages = [
        "",
        "<",
        ">",
        "<>",
        "</",
        "<a",
        "<a href=",
        "<a href=\"x",
        "<a href='é'>ü</a",
        "<a><a><a><a>deep</a>",
        "<!--",
        "<!-- never closed",
        "<script>",
        "<style>é",
        "<pre>é</pre",
        "&",
        "&#",
        "&#x",
        "&#xZZ;",
        "&#99999999999;",
        "&amp",
        "&é;",
        "é<é>é</é>é",
        "日本語<b>テキスト</b>",
        "5 < 6 > 4",
        "<p>one<p>two<br/>three",
        "<img alt=\"é\">",
        "<textarea>&lt;</textarea",
        "<plaintext><b>x",
    ];
    for page in pages {
        let doc = document_from_html(page, 1);
        let table = doc.term_frequency();
        let mut sum = 0;
        for i in 0..table.len() {
            assert!(*table.value_at(i) >= 1, "page {:?}", page);
            sum += *table.value_at(i);
        }
        assert_eq!(sum, doc.count(), "page {:?}", page);
    }
}

#[test]
fn nested_anchors_beyond_the_depth_limit() {
    let mut page = String::new();
    for _ in 0..200 {
        page.push_str("<a href=\"x\">");
    }
    page.push_str("word");
    let doc = document_from_html(&page, 1);
    assert!(doc.frequency("word") >= 1);
}

#[test]
fn words_outside_english_are_stemmed_without_harm() {
    let words = [
        "naïve", "über", "straße", "ÀÉÎ", "éééing", "ingé", "日本語", "Привет", "ée", "y", "yy",
        "ß", "ﬁsh", "İstanbul", "ſ", "generously", "skies", "dying", "news", "ééé", "aé", "éa",
        "sé", "ésses", "éies", "éed", "éeed", "éedly", "éing", "éational", "éfulness", "éli",
        "éogi", "éative", "éement", "éion", "ée", "éll", "'é'", "é's", "é's'",
    ];
    for word in words {
        let terms = tokenize(&chars(word));
        assert!(!terms.is_empty(), "word {:?}", word);
    }
}

#[test]
fn raw_content_must_be_utf8() {
    assert_eq!(document_from_bytes(vec![0xff], 1).err(), Some(ExtractionError::NotUtf8));
    assert_eq!(document_from_bytes(vec![b'<', 0x80, b'>'], 1).err(), Some(ExtractionError::NotUtf8));
    let doc = document_from_bytes("<p>Caf\u{e9}s</p>".as_bytes().to_vec(), 2).unwrap();
    assert_eq!(doc.count(), 1);
    assert_eq!(doc.last_modified(), 2);
    assert_eq!(document_from_bytes(Vec::new(), 3).unwrap().count(), 0);
}
