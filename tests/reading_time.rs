use blog_core::markdown::MdEvent;
use blog_core::reading_time::{calculate_reading_time, reading_time_from_events, ReadingTime};

#[test]
fn test_english_content() {
    let content =
        "This is a test post with some English content. It should take about 1 minute.";
    let time = calculate_reading_time(content, false);
    assert_eq!(time.minutes, 1);
    assert!(time.words > 0);
    assert_eq!(time.chinese_chars, 0);
}

#[test]
fn test_chinese_content() {
    let content = "这是一篇测试文章，包含一些中文内容。应该需要大约1分钟阅读时间。";
    let time = calculate_reading_time(content, false);
    assert_eq!(time.minutes, 1);
    assert!(time.chinese_chars > 0);
}

#[test]
fn test_mixed_content() {
    let content = r#"
# Mixed Content Test

This is English text. 这是中文文本。

```rust
fn main() {
    println!("Hello, world!");
}
```

More content here.
        "#;
    let time = calculate_reading_time(content, false);
    assert!(time.words > 0);
    assert!(time.chinese_chars > 0);
    assert_eq!(time.code_blocks, 1);
}

#[test]
fn words_need_an_ascii_letter() {
    let events = vec![MdEvent::Text("one two 3 四五 x1".to_string())];
    let t = reading_time_from_events(&events, false);
    assert_eq!(t.words, 3);
    assert_eq!(t.chinese_chars, 2);
    assert_eq!(t.code_blocks, 0);
    assert_eq!(t.minutes, 1);
}

#[test]
fn code_block_text_is_not_counted() {
    let events = vec![
        MdEvent::Text("alpha".to_string()),
        MdEvent::CodeBlockStart,
        MdEvent::Text("beta gamma".to_string()),
        MdEvent::CodeBlockEnd,
        MdEvent::Code("delta".to_string()),
    ];
    let t = reading_time_from_events(&events, false);
    assert_eq!(t.words, 1);
    assert_eq!(t.code_blocks, 1);
}

#[test]
fn minutes_round_up() {
    // 201 words at 200 per minute, plain prose.
    let text = vec!["w"; 201].join(" ");
    let t = reading_time_from_events(&vec![MdEvent::Text(text.clone())], false);
    assert_eq!(t.words, 201);
    assert_eq!(t.minutes, 2);
    // The same words read as technical content, at 150 per minute.
    let t = reading_time_from_events(&vec![MdEvent::Text(text)], true);
    assert_eq!(t.minutes, 2);
    let text = vec!["w"; 400].join(" ");
    let t = reading_time_from_events(&vec![MdEvent::Text(text)], false);
    assert_eq!(t.minutes, 2);
    // Three code blocks take a minute and a half.
    let events = vec![
        MdEvent::CodeBlockStart,
        MdEvent::CodeBlockEnd,
        MdEvent::CodeBlockStart,
        MdEvent::CodeBlockEnd,
        MdEvent::CodeBlockStart,
        MdEvent::CodeBlockEnd,
    ];
    let t = reading_time_from_events(&events, false);
    assert_eq!(t.minutes, 2);
}

#[test]
fn reading_time_strings() {
    let one = ReadingTime { minutes: 1, words: 0, chinese_chars: 0, code_blocks: 0 };
    assert_eq!(one.to_string(), "1 min read");
    assert_eq!(one.details(), "1 min read ()");
    let t = ReadingTime { minutes: 3, words: 512, chinese_chars: 0, code_blocks: 2 };
    assert_eq!(t.to_string(), "3 min read");
    assert_eq!(t.details(), "3 min read (512 words, 2 code blocks)");
    let t = ReadingTime { minutes: 2, words: 5, chinese_chars: 7, code_blocks: 1 };
    assert_eq!(t.details(), "2 min read (5 words, 7 Chinese chars, 1 code blocks)");
}
