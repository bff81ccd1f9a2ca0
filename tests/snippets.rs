use tango::{md2rs, rs2md, Error};

pub const ONE_TEXT_LINE_RS: &str = "//@ This is a demo without code.";
pub const ONE_TEXT_LINE_MD: &str = "This is a demo without code.";

pub const ONE_RUST_LINE_RS: &str = r#"fn main() { println!("one rust line"); }"#;

pub const ONE_RUST_LINE_MD: &str = r#"```rust
fn main() { println!("one rust line"); }
```
"#;

pub const HELLO_RS: &str = r#"//@ # Hello World
//@ This is a Hello World demo.

// Code started here (at this normal comment)
fn main() { println!("Hello World"); }
//@ And then the text resumes here.
"#;

pub const HELLO_MD: &str = r#"# Hello World
This is a Hello World demo.

```rust
// Code started here (at this normal comment)
fn main() { println!("Hello World"); }
```
And then the text resumes here.
"#;

pub const HELLO2_RS: &str = r#"//@ # Hello World
//@ This is a second Hello World demo.

// Code started here (at this normal comment)
fn main() { println!("Hello World"); }

//@ And then the text resumes here, after a line break.
"#;

pub const HELLO2_MD: &str = r#"# Hello World
This is a second Hello World demo.

```rust
// Code started here (at this normal comment)
fn main() { println!("Hello World"); }
```

And then the text resumes here, after a line break.
"#;

pub const HELLO3_RS: &str = r#"

// Code started here (at this normal comment)
fn main() { hello() }

//@ Here is some expository text in the middle
//@ It spans ...
//@ ... multiple lines

// Here is yet more code!
// (and we end with code, not doc)
fn hello() { println!("Hello World"); }
"#;

pub const HELLO3_MD: &str = r#"

```rust
// Code started here (at this normal comment)
fn main() { hello() }
```

Here is some expository text in the middle
It spans ...
... multiple lines

```rust
// Here is yet more code!
// (and we end with code, not doc)
fn hello() { println!("Hello World"); }
```
"#;

pub const HELLO4_MD: &str = r#"# Hello World
Here is some expository text, but this one ...

... has a gap between its lines.
"#;

pub const HELLO4_RS: &str = r#"//@ # Hello World
//@ Here is some expository text, but this one ...
//@
//@ ... has a gap between its lines.
"#;

pub const PRODIGAL5_MD: &str = r#"# Hello World
```rust
let code_fragment;
```
	
This looks like it has a nice para break before its starts,
but note the tab
"#;

pub const HARVEST5_RS: &str = r#"//@ # Hello World
let code_fragment;
//@ 	
//@ This looks like it has a nice para break before its starts,
//@ but note the tab
"#;

pub const RETURN5_MD: &str = r#"# Hello World
```rust
let code_fragment;
```

This looks like it has a nice para break before its starts,
but note the tab
"#;

pub const HELLO6_METADATA_MD: &str = r#"# Hello World

```rust { .css_class_metadata }
// The question is, can we preserve the .css_class_metdata
```
"#;

pub const HELLO6_METADATA_RS: &str = r#"//@ # Hello World

//@@ { .css_class_metadata }
// The question is, can we preserve the .css_class_metdata
"#;

pub const HELLO7_LINK_TO_PLAY_MD: &str = r#"# Hello World

```rust
//
```
[hello7]: https://play.rust-lang.org/?code=//&version=nightly
"#;

pub const HELLO7_LINK_TO_PLAY_RS: &str = r#"//@ # Hello World

//
//@@@ hello7
"#;

pub const HELLO8_LINK_TO_PLAY_MD: &str = r#"# Hello World

```rust
// Here is some content
fn main() { }
```
[hello8]: https://play.rust-lang.org/?code=//%20Here%20is%20some%20content%0Afn%20main()%20{%20}&version=nightly
"#;

pub const HELLO8_LINK_TO_PLAY_RS: &str = r#"//@ # Hello World

// Here is some content
fn main() { }
//@@@ hello8
"#;

pub const HELLO9_LINK_TO_PLAY_MD_WARN: &str = r#"# Hello World

```rust
// Here is some content
fn main() { }
```
[hello9]: https://play.rust-lang.org/?code=does_not_match&version=nightly
"#;

pub const HELLO9_LINK_TO_PLAY_RS: &str = r#"//@ # Hello World

// Here is some content
fn main() { }
//@@@ hello9
"#;

fn same_lines(actual: &str, expect: &str) {
    let a: Vec<&str> = actual.lines().collect();
    let b: Vec<&str> = expect.lines().collect();
    assert_eq!(a, b);
}

fn core_test_md2rs(md: &str, rs: &str) {
    let mut output = String::new();
    md2rs(md, &mut output).unwrap();
    same_lines(&output, rs);
}

fn warn_test_md2rs(md: &str, rs: &str) {
    let mut output = String::new();
    match md2rs(md, &mut output) {
        Err(Error::Warnings(_)) => {}
        Ok(_) => panic!("expected successful conversion with warning"),
        Err(_) => panic!("error in converion"),
    }
    same_lines(&output, rs);
}

fn core_test_rs2md(rs: &str, md: &str) {
    let mut output = String::new();
    rs2md(rs, &mut output);
    same_lines(&output, md);
}

#[test]
fn mod_test_onetext_md2rs() {
    core_test_md2rs(ONE_TEXT_LINE_MD, ONE_TEXT_LINE_RS);
}

#[test]
fn mod_test_onetext_rs2md() {
    core_test_rs2md(ONE_TEXT_LINE_RS, ONE_TEXT_LINE_MD);
}

#[test]
fn mod_test_onerust_md2rs() {
    core_test_md2rs(ONE_RUST_LINE_MD, ONE_RUST_LINE_RS);
}

#[test]
fn mod_test_onerust_rs2md() {
    core_test_rs2md(ONE_RUST_LINE_RS, ONE_RUST_LINE_MD);
}

#[test]
fn mod_test_hello_md2rs() {
    core_test_md2rs(HELLO_MD, HELLO_RS);
}

#[test]
fn mod_test_hello_rs2md() {
    core_test_rs2md(HELLO_RS, HELLO_MD);
}

#[test]
fn mod_test_hello2_md2rs() {
    core_test_md2rs(HELLO2_MD, HELLO2_RS);
}

#[test]
fn mod_test_hello2_rs2md() {
    core_test_rs2md(HELLO2_RS, HELLO2_MD);
}

#[test]
fn mod_test_hello3_md2rs() {
    core_test_md2rs(HELLO3_MD, HELLO3_RS);
}

#[test]
fn mod_test_hello3_rs2md() {
    core_test_rs2md(HELLO3_RS, HELLO3_MD);
}

#[test]
fn mod_test_hello4_md2rs() {
    core_test_md2rs(HELLO4_MD, HELLO4_RS);
}

#[test]
fn mod_test_hello4_rs2md() {
    core_test_rs2md(HELLO4_RS, HELLO4_MD);
}

#[test]
fn mod_test_prodigal5_md2rs() {
    core_test_md2rs(PRODIGAL5_MD, HARVEST5_RS);
}

#[test]
fn mod_test_prodigal5return_md2rs() {
    core_test_rs2md(HARVEST5_RS, RETURN5_MD);
}

#[test]
fn mod_test_hello6_metadata_md2rs() {
    core_test_md2rs(HELLO6_METADATA_MD, HELLO6_METADATA_RS);
}

#[test]
fn mod_test_hello6_metadata_rs2md() {
    core_test_rs2md(HELLO6_METADATA_RS, HELLO6_METADATA_MD);
}

#[test]
fn test_hello7_link_to_play_md2rs() {
    core_test_md2rs(HELLO7_LINK_TO_PLAY_MD, HELLO7_LINK_TO_PLAY_RS);
}

#[test]
fn test_hello7_link_to_play_rs2md() {
    core_test_rs2md(HELLO7_LINK_TO_PLAY_RS, HELLO7_LINK_TO_PLAY_MD);
}

#[test]
fn test_hello8_link_to_play_md2rs() {
    core_test_md2rs(HELLO8_LINK_TO_PLAY_MD, HELLO8_LINK_TO_PLAY_RS);
}

#[test]
fn test_hello8_link_to_play_rs2md() {
    core_test_rs2md(HELLO8_LINK_TO_PLAY_RS, HELLO8_LINK_TO_PLAY_MD);
}

#[test]
fn test_hello9_link_to_play_md2rs_warn() {
    warn_test_md2rs(HELLO9_LINK_TO_PLAY_MD_WARN, HELLO9_LINK_TO_PLAY_RS);
}

#[test]
fn footnote_snippets_test_onetext_md2rs() {
    core_test_md2rs(ONE_TEXT_LINE_MD, ONE_TEXT_LINE_RS);
}

#[test]
fn footnote_snippets_test_onetext_rs2md() {
    core_test_rs2md(ONE_TEXT_LINE_RS, ONE_TEXT_LINE_MD);
}

#[test]
fn footnote_snippets_test_onerust_md2rs() {
    core_test_md2rs(ONE_RUST_LINE_MD, ONE_RUST_LINE_RS);
}

#[test]
fn footnote_snippets_test_onerust_rs2md() {
    core_test_rs2md(ONE_RUST_LINE_RS, ONE_RUST_LINE_MD);
}

#[test]
fn footnote_snippets_test_hello4_md2rs() {
    core_test_md2rs(HELLO4_MD, HELLO4_RS);
}

#[test]
fn footnote_snippets_test_hello4_rs2md() {
    core_test_rs2md(HELLO4_RS, HELLO4_MD);
}

#[test]
fn footnote_snippets_test_prodigal5_md2rs() {
    core_test_md2rs(PRODIGAL5_MD, HARVEST5_RS);
}

#[test]
fn footnote_snippets_test_prodigal5return_md2rs() {
    core_test_rs2md(HARVEST5_RS, RETURN5_MD);
}

#[test]
fn footnote_snippets_test_hello6_metadata_md2rs() {
    core_test_md2rs(HELLO6_METADATA_MD, HELLO6_METADATA_RS);
}

#[test]
fn footnote_snippets_test_hello6_metadata_rs2md() {
    core_test_rs2md(HELLO6_METADATA_RS, HELLO6_METADATA_MD);
}
