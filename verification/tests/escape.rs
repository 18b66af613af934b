use staticpedia::render::escape;
use staticpedia::render::html_escape;

#[test]
fn escapes_each_special_character() {
    assert_eq!(escape("&"), "&amp;");
    assert_eq!(escape("<"), "&lt;");
    assert_eq!(escape(">"), "&gt;");
    assert_eq!(escape("\""), "&quot;");
    assert_eq!(escape("'"), "&#39;");
    assert_eq!(escape("\\"), "&#92;");
}

#[test]
fn escapes_mixed_text() {
    assert_eq!(escape("a < b & c > d"), "a &lt; b &amp; c &gt; d");
    assert_eq!(escape("<script>\"x\"</script>"), "&lt;script&gt;&quot;x&quot;&lt;/script&gt;");
}

#[test]
fn empty_string_stays_empty() {
    assert_eq!(escape(""), "");
}

#[test]
fn clean_text_copies_verbatim() {
    assert_eq!(escape("hello world"), "hello world");
    assert_eq!(escape("caf\u{e9} \u{1f600}"), "caf\u{e9} \u{1f600}");
}

#[test]
fn idempotent_on_clean_input() {
    let once = escape("plain text, no specials.");
    let twice = escape(&once);
    assert_eq!(once, twice);
}

#[test]
fn single_char_substitutions() {
    assert_eq!(html_escape('&'), Some("&amp;"));
    assert_eq!(html_escape('<'), Some("&lt;"));
    assert_eq!(html_escape('>'), Some("&gt;"));
    assert_eq!(html_escape('"'), Some("&quot;"));
    assert_eq!(html_escape('\''), Some("&#39;"));
    assert_eq!(html_escape('\\'), Some("&#92;"));
    assert_eq!(html_escape('a'), None);
}

#[test]
fn decoding_the_entities_recovers_the_input() {
    let input = "a <b> & \"c\" '\\d";
    let decoded = escape(input)
        .replace("&lt;", "<")
        .replace("&gt;", ">")
        .replace("&quot;", "\"")
        .replace("&#39;", "'")
        .replace("&#92;", "\\")
        .replace("&amp;", "&");
    assert_eq!(decoded, input);
}

#[test]
fn no_bare_specials_in_output() {
    let out = escape("a<b>&\"'\\z");
    for (i, ch) in out.char_indices() {
        assert!(ch != '<' && ch != '>' && ch != '"' && ch != '\'' && ch != '\\');
        if ch == '&' {
            let rest = &out[i..];
            assert!(
                rest.starts_with("&amp;") || rest.starts_with("&lt;") || rest.starts_with("&gt;")
                    || rest.starts_with("&quot;") || rest.starts_with("&#39;")
                    || rest.starts_with("&#92;")
            );
        }
    }
}
