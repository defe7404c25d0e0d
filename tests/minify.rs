use blog_core::minify::{is_js_operator, minify_css, minify_html, minify_js, MinifyConfig};

#[test]
fn test_minify_html() {
    let config = MinifyConfig::default();
    let html = r#"
        <html>
            <head>
                <title>Test</title>
            </head>
            <body>
                <h1>Hello World</h1>
                <!-- This is a comment -->
                <p>This is   a   test</p>
            </body>
        </html>
        "#;

    let minified = minify_html(html, &config).unwrap();
    assert!(!minified.contains("<!--"));
    assert!(!minified.contains("   "));
    assert!(minified.contains("<h1>Hello World</h1>"));
}

#[test]
fn test_minify_css() {
    let config = MinifyConfig::default();
    let css = r#"
        body {
            margin: 0;
            padding: 0;
        }
        
        /* This is a comment */
        .test {
            color: red;
        }
        "#;

    let minified = minify_css(css, &config).unwrap();
    assert!(!minified.contains("/*"));
    assert!(minified.contains("body{margin:0;padding:0;}"));
}

#[test]
fn test_minify_js() {
    let config = MinifyConfig::default();
    let js = r#"
        function test() {
            // This is a comment
            var x = 1;
            var y = 2;
            return x + y;
        }
        "#;

    let minified = minify_js(js, &config).unwrap();
    assert!(!minified.contains("// This is a comment"));
    assert!(minified.contains("var x=1;"));
}

#[test]
fn html_whitespace_collapses_to_one_space() {
    let config = MinifyConfig::default();
    assert_eq!(minify_html("<p>a   b\n\n c</p>", &config).unwrap(), "<p>a b c</p>");
}

#[test]
fn html_keeps_comments_when_asked() {
    let config = MinifyConfig { preserve_comments: true, ..MinifyConfig::default() };
    assert_eq!(minify_html("<p>a</p> <!-- c -->", &config).unwrap(), "<p>a</p> <!-- c -->");
}

#[test]
fn html_keeps_whitespace_inside_tags_and_scripts() {
    let config = MinifyConfig::default();
    assert_eq!(
        minify_html("<a  href=\"x\">t</a>   <script>var  a;</script>", &config).unwrap(),
        "<a  href=\"x\">t</a> <script>var  a;</script>"
    );
}

#[test]
fn css_keeps_strings() {
    let config = MinifyConfig::default();
    assert_eq!(
        minify_css("a { content: \"x  y\"; }", &config).unwrap(),
        "a{content:\"x  y\";}"
    );
}

#[test]
fn css_comment_removed() {
    let config = MinifyConfig::default();
    assert_eq!(minify_css("a{b:c;}/* note */", &config).unwrap(), "a{b:c;}");
}

#[test]
fn js_block_comment_dropped_and_kept() {
    let drop = MinifyConfig::default();
    let keep = MinifyConfig { preserve_comments: true, ..MinifyConfig::default() };
    assert_eq!(minify_js("a = 1; /* c */ b = 2;", &drop).unwrap(), "a=1;b=2;");
    assert_eq!(minify_js("a = 1; /* c */ b = 2;", &keep).unwrap(), "a=1;/* c */b=2;");
}

#[test]
fn js_line_comment_keeps_newline() {
    let drop = MinifyConfig::default();
    assert_eq!(minify_js("x // c\ny", &drop).unwrap(), "x\ny");
}

#[test]
fn js_strings_untouched() {
    let drop = MinifyConfig::default();
    assert_eq!(minify_js("s = 'a  // b';", &drop).unwrap(), "s='a  // b';");
}

#[test]
fn js_operator_set() {
    assert!(is_js_operator('{'));
    assert!(is_js_operator('~'));
    assert!(!is_js_operator('a'));
    assert!(!is_js_operator(' '));
}
