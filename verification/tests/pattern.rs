use rust_web_server::pattern::{CompiledPattern, Segment, TemplateError};

fn compiled(template: &str) -> CompiledPattern {
    CompiledPattern::compile(template).expect("template must compile")
}

#[test]
fn root_template_matches_only_root_path() {
    let p = compiled("/");
    assert!(p.match_path("/").is_some());
    assert!(p.match_path("").is_none());
    assert!(p.match_path("/a").is_none());
    assert!(p.match_path("//").is_none());
}

#[test]
fn literal_segments_match_verbatim() {
    let p = compiled("/echo/rust");
    assert!(p.match_path("/echo/rust").is_some());
    assert!(p.match_path("/echo/rusty").is_none());
    assert!(p.match_path("/echo").is_none());
    assert!(p.match_path("/echo/rust/").is_none());
    assert!(p.match_path("/echo/rust/x").is_none());
    assert!(p.match_path("echo/rust").is_none());
}

#[test]
fn empty_template_segments_are_discarded() {
    let doubled = compiled("//echo///rust");
    assert!(doubled.match_path("/echo/rust").is_some());
    assert!(doubled.match_path("//echo/rust").is_none());
}

#[test]
fn int_placeholder_matches_digits_only() {
    let p = compiled("/items/:id:");
    let params = p.match_path("/items/42").expect("digits must match");
    assert_eq!(params.get("id").unwrap().as_str(), "42");
    assert_eq!(params.len(), 1);

    assert!(p.match_path("/items/abc").is_none());
    assert!(p.match_path("/items/4a2").is_none());
    assert!(p.match_path("/items/").is_none());
    assert!(p.match_path("/items/4.2").is_none());
}

#[test]
fn str_placeholder_matches_word_characters_including_digits() {
    let p = compiled("/echo/$w$");
    assert_eq!(p.match_path("/echo/hello").unwrap().get("w").unwrap().as_str(), "hello");
    assert_eq!(p.match_path("/echo/42").unwrap().get("w").unwrap().as_str(), "42");
    assert_eq!(p.match_path("/echo/a_B9").unwrap().get("w").unwrap().as_str(), "a_B9");
    assert!(p.match_path("/echo/a-b").is_none());
    assert!(p.match_path("/echo/").is_none());
    assert!(p.match_path("/echo/a/b").is_none());
}

#[test]
fn several_placeholders_capture_separately() {
    let p = compiled("/u/$name$/posts/:post:");
    let params = p.match_path("/u/alice/posts/7").expect("must match");
    assert_eq!(params.len(), 2);
    assert_eq!(params.get("name").unwrap().as_str(), "alice");
    assert_eq!(params.get("post").unwrap().as_str(), "7");
    assert!(params.get("absent").is_none());

    assert!(p.match_path("/u/alice/posts/seven").is_none());
    assert!(p.match_path("/u/al-ice/posts/7").is_none());
}

#[test]
fn short_and_unterminated_markers_are_literals() {
    // A segment of length two or less, or with mismatched delimiters,
    // is a literal matched verbatim.
    let p = compiled("/a/::");
    assert!(p.match_path("/a/::").is_some());
    assert!(p.match_path("/a/7").is_none());

    let q = compiled("/a/:x$");
    assert!(q.match_path("/a/:x$").is_some());
    assert!(q.match_path("/a/9").is_none());
}

#[test]
fn template_must_begin_with_slash() {
    assert_eq!(
        CompiledPattern::compile("echo").unwrap_err(),
        TemplateError::MissingLeadingSlash
    );
    assert_eq!(
        CompiledPattern::compile("").unwrap_err(),
        TemplateError::MissingLeadingSlash
    );
}

#[test]
fn invalid_placeholder_names_are_rejected_at_registration() {
    assert_eq!(
        CompiledPattern::compile("/x/:a b:").unwrap_err(),
        TemplateError::InvalidParamName
    );
    assert_eq!(
        CompiledPattern::compile("/x/$a-b$").unwrap_err(),
        TemplateError::InvalidParamName
    );
}

#[test]
fn duplicate_placeholder_names_are_rejected_at_registration() {
    assert_eq!(
        CompiledPattern::compile("/x/:a:/:a:").unwrap_err(),
        TemplateError::DuplicateParamName
    );
    assert_eq!(
        CompiledPattern::compile("/x/:a:/$a$").unwrap_err(),
        TemplateError::DuplicateParamName
    );
}

#[test]
fn compiled_segments_expose_names_and_kinds_in_order() {
    let p = compiled("/u/$name$/posts/:post:");
    let segs = p.segments();
    assert_eq!(segs.len(), 4);
    assert!(matches!(&segs[0], Segment::Literal(s) if s.as_str() == "u"));
    assert!(matches!(&segs[1], Segment::StrParam(s) if s.as_str() == "name"));
    assert!(matches!(&segs[2], Segment::Literal(s) if s.as_str() == "posts"));
    assert!(matches!(&segs[3], Segment::IntParam(s) if s.as_str() == "post"));
}
