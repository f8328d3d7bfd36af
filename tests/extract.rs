use bing_dict::extract::{parse_bing_dict_html, parse_snippet_html};

const HELLO_SNIPPET: &str = "<div><span class=\"ht_attr\" lang=\"en-us\">[h ə ˈ l oʊ] </span><ul><li><span class=\"ht_pos\">int.</span><span class=\"ht_trs\">你好；喂</span></li></ul></div>";

#[test]
fn snippet_phonetic_and_one_pair() {
    let r = parse_snippet_html(HELLO_SNIPPET);
    assert_eq!(r, Some("· [h ə ˈ l oʊ]\n· int. 你好；喂".to_string()));
}

#[test]
fn snippet_phonetic_only() {
    let r = parse_snippet_html("<span class=\"ht_attr\" lang=\"en-us\">[wɜːd] </span>");
    assert_eq!(r, Some("· [wɜːd]".to_string()));
}

#[test]
fn snippet_pairs_only() {
    let html = "<li><span class=\"ht_pos\">n.</span><span class=\"ht_trs\">词</span></li>\
                <li><span class=\"ht_pos\">v.</span><span class=\"ht_trs\">措辞</span></li>";
    assert_eq!(parse_snippet_html(html), Some("· n. 词\n· v. 措辞".to_string()));
}

#[test]
fn snippet_phonetic_then_two_pairs() {
    let html = "<span class=\"ht_attr\" lang=\"en-us\">[rʌn]</span>\
                <span class=\"ht_pos\">v.</span><span class=\"ht_trs\">跑</span>\
                <span class=\"ht_pos\">n.</span><span class=\"ht_trs\">奔跑</span>";
    assert_eq!(
        parse_snippet_html(html),
        Some("· [rʌn]\n· v. 跑\n· n. 奔跑".to_string())
    );
}

#[test]
fn snippet_nothing_found() {
    assert_eq!(parse_snippet_html("<html><body>nothing</body></html>"), None);
    assert_eq!(parse_snippet_html(""), None);
}

#[test]
fn snippet_pos_without_translation() {
    assert_eq!(parse_snippet_html("<span class=\"ht_pos\">n.</span> trailing"), None);
}

#[test]
fn snippet_phonetic_without_bracket_close() {
    assert_eq!(parse_snippet_html("<span class=\"ht_attr\" lang=\"en-us\">[abc"), None);
}

#[test]
fn meta_description_found() {
    let html = "<head><meta name=\"description\" content=\"必应词典为您提供hello的释义，int. 你好\" /></head>";
    assert_eq!(
        parse_bing_dict_html(html),
        Some("必应词典为您提供hello的释义，int. 你好".to_string())
    );
}

#[test]
fn meta_description_kept_verbatim() {
    let html = "<meta name=\"description\" content=\"a &amp; b\" /><meta name=\"description\" content=\"x\" />";
    assert_eq!(parse_bing_dict_html(html), Some("a &amp; b".to_string()));
}

#[test]
fn meta_description_empty_value() {
    let html = "<meta name=\"description\" content=\"\" />";
    assert_eq!(parse_bing_dict_html(html), Some(String::new()));
}

#[test]
fn meta_description_missing_start() {
    assert_eq!(parse_bing_dict_html("<meta name=\"keywords\" content=\"x\" />"), None);
    assert_eq!(parse_bing_dict_html(""), None);
}

#[test]
fn meta_description_missing_end() {
    assert_eq!(parse_bing_dict_html("<meta name=\"description\" content=\"unterminated"), None);
}

#[test]
fn meta_description_end_only_before_start() {
    assert_eq!(parse_bing_dict_html("\" /><meta name=\"description\" content=\"x"), None);
}
