use javaheaders::extract_java_headers;

#[test]
fn simple_multiline_header() {
    let source = String::from("/* some contents */\nclass HolaMon {}");
    let result = extract_java_headers(&source);
    let expected = String::from(" some contents ");
    assert_eq!(expected, result);
}

#[test]
fn simple_line_header() {
    let source = String::from("// some contents\nclass HolaMon {}");
    let result = extract_java_headers(&source);
    let expected = String::from(" some contents\n");
    assert_eq!(expected, result);
}

#[test]
fn two_line_header() {
    let source = String::from("// some contents\n// and no more\nclass HolaMon {}");
    let result = extract_java_headers(&source);
    let expected = String::from(" some contents\n and no more\n");
    assert_eq!(expected, result);
}

#[test]
fn mixed_header() {
    let source = String::from("/* some contents */// and no more\nclass HolaMon {}");
    let result = extract_java_headers(&source);
    let expected = String::from(" some contents  and no more\n");
    assert_eq!(expected, result);
}

#[test]
fn weird_header() {
    let source = String::from("/** some contents * * * *\n/// and no more\n*/class HolaMon {}");
    let result = extract_java_headers(&source);
    let expected = String::from("* some contents * * * *\n/// and no more\n");
    assert_eq!(expected, result);
}

#[test]
fn no_header() {
    let source = String::from("class HolaMon {}");
    let result = extract_java_headers(&source);
    let expected = String::from("");
    assert_eq!(expected, result);
}

#[test]
fn empty_single_line_header() {
    let source = String::from("//\nclass HolaMon {}");
    let result = extract_java_headers(&source);
    let expected = String::from("\n");
    assert_eq!(expected, result);
}

#[test]
fn empty_multiline_header() {
    let source = String::from("/**/\nclass HolaMon {}");
    let result = extract_java_headers(&source);
    let expected = String::from("");
    assert_eq!(expected, result);
}

#[test]
fn package_header() {
    let source = String::from("package java.util.Molongui;\n/* some contents */\nclass HolaMon {}");
    let result = extract_java_headers(&source);
    let expected = String::from(" some contents ");
    assert_eq!(expected, result);
}

#[test]
fn package_same_line_header() {
    let source = String::from("package java.util.Molongui;/* some contents */\nclass HolaMon {}");
    let result = extract_java_headers(&source);
    let expected = String::from(" some contents ");
    assert_eq!(expected, result);
}

#[test]
fn package_same_singleline_header() {
    let source = String::from("package java.util.Molongui;    // some contents\nclass HolaMon {}");
    let result = extract_java_headers(&source);
    let expected = String::from(" some contents\n");
    assert_eq!(expected, result);
}

#[test]
fn whitespace_surrounding_header() {
    let source = String::from("   \n\n\t\t/* some*/\n   \t\t   \n// contents\nclass HolaMon {}");
    let result = extract_java_headers(&source);
    let expected = String::from(" some contents\n");
    assert_eq!(expected, result);
}

#[test]
fn empty_input() {
    let source = String::from("");
    let result = extract_java_headers(&source);
    assert_eq!(String::from(""), result);
}

#[test]
fn only_whitespace() {
    let source = String::from("   \n\t\t\n  ");
    let result = extract_java_headers(&source);
    assert_eq!(String::from(""), result);
}

#[test]
fn whitespace_then_code() {
    let source = String::from("  \n\tclass HolaMon {}");
    let result = extract_java_headers(&source);
    assert_eq!(String::from(""), result);
}

#[test]
fn lone_slash() {
    let source = String::from("/");
    let result = extract_java_headers(&source);
    assert_eq!(String::from(""), result);
}

#[test]
fn slash_without_comment() {
    let source = String::from("/x // not a header\n");
    let result = extract_java_headers(&source);
    assert_eq!(String::from(""), result);
}

#[test]
fn comment_after_code_excluded() {
    let source = String::from("class HolaMon {}\n// not a header\n/* nor this */\n");
    let result = extract_java_headers(&source);
    assert_eq!(String::from(""), result);
}

#[test]
fn line_comment_without_newline() {
    let source = String::from("// some contents");
    let result = extract_java_headers(&source);
    assert_eq!(String::from(" some contents"), result);
}

#[test]
fn unterminated_block_comment() {
    let source = String::from("/* some contents");
    let result = extract_java_headers(&source);
    assert_eq!(String::from(" some contents"), result);
}

#[test]
fn star_runs_kept_inside_block() {
    let source = String::from("/** a **/");
    let result = extract_java_headers(&source);
    assert_eq!(String::from("* a *"), result);
}

#[test]
fn only_stars_block() {
    let source = String::from("/***/");
    let result = extract_java_headers(&source);
    assert_eq!(String::from("*"), result);
}

#[test]
fn permissive_package_match() {
    // Anything from a leading `p` up to the first `;` is consumed as a
    // package statement, whether or not it spells `package`.
    let source = String::from("puppy;// some contents\nclass HolaMon {}");
    let result = extract_java_headers(&source);
    assert_eq!(String::from(" some contents\n"), result);
}

#[test]
fn package_without_semicolon() {
    let source = String::from("package java.util.Molongui\n// some contents\n");
    let result = extract_java_headers(&source);
    assert_eq!(String::from(""), result);
}

#[test]
fn star_then_code_stops() {
    let source = String::from("*/ class HolaMon {}");
    let result = extract_java_headers(&source);
    assert_eq!(String::from(""), result);
}

#[test]
fn deterministic_on_same_input() {
    let source = String::from("/* a */// b\nclass HolaMon {}");
    let first = extract_java_headers(&source);
    let second = extract_java_headers(&source);
    assert_eq!(first, second);
}
