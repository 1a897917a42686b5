use html_concat::aops::{get_stylesheets, get_url, parse_html, Challenge, ExtractError};

fn page_with_solution() -> String {
    String::from(
        "<html><head>\
         <link rel=\"stylesheet\" href=\"https://example.org/site.css\">\
         <link rel=\"stylesheet\" href=\"https://example.org/app.js\">\
         <link rel=\"stylesheet\" href=\"https://example.org/extra.css\">\
         </head><body><div class=\"mw-parser-output\">\
         <p></p>\
         <p>Problem text here.</p>\
         <h2><span class=\"mw-headline\" id=\"Solution\">Solution</span></h2>\
         <p>Solution text here.</p>\
         <h2><span class=\"mw-headline\" id=\"See_Also\">See Also</span></h2>\
         <p>Trailing links.</p>\
         </div></body></html>",
    )
}

fn page_with_toc() -> String {
    String::from(
        "<html><body><div class=\"mw-parser-output\">\
         <p>Lead paragraph.</p>\
         <p></p>\
         <div id=\"toc\">contents box</div>\
         <h2><span class=\"mw-headline\" id=\"Solution\">Solution</span></h2>\
         <p>Worked answer.</p>\
         </div></body></html>",
    )
}

fn page_with_fallback_headings() -> String {
    String::from(
        "<html><body><div class=\"mw-parser-output\">\
         <p></p>\
         <p>Intro paragraph.</p>\
         <h2><span class=\"mw-headline\" id=\"Prelim\">Prelim</span></h2>\
         <p>Middle paragraph.</p>\
         <h2><span class=\"mw-headline\" id=\"Answer\">Answer</span></h2>\
         <p>Answer paragraph.</p>\
         </div></body></html>",
    )
}

#[test]
fn parse_html_should_work() {
    let content = page_with_solution();
    let styles = get_stylesheets(&content);
    let result = parse_html(2003, 23, &content).unwrap();

    assert_eq!(result.year, 2003);
    assert_eq!(result.number, 23);

    assert_eq!(
        styles,
        vec![
            "https://example.org/site.css".to_string(),
            "https://example.org/extra.css".to_string(),
        ]
    );
}

#[test]
fn problem_fragment_excludes_solution_content() {
    let content = page_with_solution();
    let result = parse_html(2003, 23, &content).unwrap();

    assert!(result.problem.contains("Problem text here."));
    assert!(!result.problem.contains("Solution text here."));
    assert!(!result.problem.contains("mw-headline"));
    assert!(!result.problem.contains("Trailing links."));

    assert!(result.solution.contains("Solution text here."));
    assert!(result.solution.contains("id=\"Solution\""));
    assert!(!result.solution.contains("Problem text here."));
    assert!(!result.solution.contains("Trailing links."));
    assert!(!result.solution.contains("See Also"));
}

#[test]
fn toc_is_stripped_and_placeholder_shifts() {
    let content = page_with_toc();
    let result = parse_html(2004, 11, &content).unwrap();

    assert!(result.problem.contains("Lead paragraph."));
    assert!(!result.problem.contains("contents box"));
    assert!(!result.problem.contains("Worked answer."));

    assert!(result.solution.contains("Worked answer."));
    assert!(!result.solution.contains("contents box"));
    assert!(!result.solution.contains("Lead paragraph."));
}

#[test]
fn fallback_picks_second_heading_marker() {
    let content = page_with_fallback_headings();
    let result = parse_html(2005, 24, &content).unwrap();

    assert!(result.problem.contains("Intro paragraph."));
    assert!(result.problem.contains("Middle paragraph."));
    assert!(result.problem.contains("Prelim"));
    assert!(!result.problem.contains("Answer paragraph."));

    assert!(result.solution.contains("Answer paragraph."));
    assert!(result.solution.contains("id=\"Answer\""));
    assert!(!result.solution.contains("Intro paragraph."));
    assert!(!result.solution.contains("Middle paragraph."));
}

#[test]
fn missing_container_is_reported() {
    let content = "<html><body><p>nothing to see</p></body></html>";
    let err = parse_html(2009, 22, content).unwrap_err();
    assert_eq!(err, ExtractError::ContainerNotFound);
}

#[test]
fn missing_anchor_is_reported() {
    let content = "<html><body><div class=\"mw-parser-output\">\
                   <p>Only one heading.</p>\
                   <h2><span class=\"mw-headline\" id=\"Intro\">Intro</span></h2>\
                   </div></body></html>";
    let err = parse_html(2010, 3, content).unwrap_err();
    assert_eq!(err, ExtractError::SolutionAnchorNotFound);
}

#[test]
fn container_carrying_the_anchor_id_is_handled() {
    // The container itself is the anchor: its wrapper is the fragment's root
    // element, so the problem pass deletes the whole tree. The run must not
    // crash; the problem view is empty and the solution view keeps the tree.
    let content = "<div class=\"mw-parser-output\" id=\"Solution\"></div>";
    let result = parse_html(2003, 23, content).unwrap();
    assert_eq!(result.problem, "");
    assert!(result.solution.contains("mw-parser-output"));
}

#[test]
fn extraction_is_idempotent() {
    let content = page_with_solution();
    let a = parse_html(2003, 23, &content).unwrap();
    let b = parse_html(2003, 23, &content).unwrap();
    assert_eq!(a.problem, b.problem);
    assert_eq!(a.solution, b.solution);
}

#[test]
fn stylesheets_keep_document_order_and_drop_non_css() {
    let content = "<html><head>\
                   <link rel=\"stylesheet\" href=\"b.css\">\
                   <link rel=\"stylesheet\">\
                   <link rel=\"stylesheet\" href=\"a.js\">\
                   <link rel=\"stylesheet\" href=\"a.css\">\
                   </head><body></body></html>";
    let styles = get_stylesheets(content);
    assert_eq!(styles, vec!["b.css".to_string(), "a.css".to_string()]);
}

#[test]
fn stylesheets_empty_when_no_links() {
    let styles = get_stylesheets("<html><body><p>plain</p></body></html>");
    assert!(styles.is_empty());
}

#[test]
fn url_has_the_canonical_shape() {
    assert_eq!(
        get_url(2003, 23, Challenge::Amc8),
        "https://artofproblemsolving.com/wiki/index.php/2003_AMC_8_Problems/Problem_23"
    );
    assert_eq!(
        get_url(2010, 5, Challenge::Amc10a),
        "https://artofproblemsolving.com/wiki/index.php/2010_AMC_10A_Problems/Problem_5"
    );
    assert_eq!(
        get_url(1999, 1, Challenge::Amc10b),
        "https://artofproblemsolving.com/wiki/index.php/1999_AMC_10B_Problems/Problem_1"
    );
}

#[test]
fn challenge_tags_are_canonical() {
    assert_eq!(Challenge::Amc8.tag(), "AMC_8");
    assert_eq!(Challenge::Amc10a.tag(), "AMC_10A");
    assert_eq!(Challenge::Amc10b.tag(), "AMC_10B");
    assert_eq!(Challenge::default(), Challenge::Amc8);
}
