use html_concat::aops::{
    assemble, collect_year, insert_sorted, AopsContent, AopsProblem, AopsScrapeResult,
    AopsScraper, Challenge, ExtractError, FetchOutcome, HarvestFailure, Span,
};

fn numbered_page(marker: &str) -> String {
    format!(
        "<html><head><link rel=\"stylesheet\" href=\"https://example.org/{marker}.css\">\
         </head><body><div class=\"mw-parser-output\">\
         <p></p>\
         <p>Problem {marker}.</p>\
         <h2><span class=\"mw-headline\" id=\"Solution\">Solution</span></h2>\
         <p>Solution {marker}.</p>\
         </div></body></html>"
    )
}

fn bare_page(marker: &str) -> String {
    format!(
        "<html><body><div class=\"mw-parser-output\">\
         <p></p>\
         <p>Problem {marker}.</p>\
         <h2><span class=\"mw-headline\" id=\"Solution\">Solution</span></h2>\
         <p>Solution {marker}.</p>\
         </div></body></html>"
    )
}

#[test]
fn year_group_is_sorted_whatever_the_arrival_order() {
    let outcomes = vec![
        FetchOutcome { number: 25, page: Ok(numbered_page("c")) },
        FetchOutcome { number: 23, page: Ok(numbered_page("a")) },
        FetchOutcome { number: 24, page: Ok(numbered_page("b")) },
    ];
    let (content, _styles) = collect_year(2003, outcomes).unwrap();
    assert_eq!(content.year, 2003);
    let numbers: Vec<u32> = content.problems.iter().map(|p| p.number).collect();
    assert_eq!(numbers, vec![23, 24, 25]);
    assert!(content.problems[0].problem.contains("Problem a."));
    assert!(content.problems[2].solution.contains("Solution c."));
}

#[test]
fn first_nonempty_stylesheet_list_wins() {
    let outcomes = vec![
        FetchOutcome { number: 1, page: Ok(bare_page("one")) },
        FetchOutcome { number: 2, page: Ok(numbered_page("two")) },
        FetchOutcome { number: 3, page: Ok(numbered_page("three")) },
    ];
    let (_content, styles) = collect_year(2008, outcomes).unwrap();
    assert_eq!(styles, vec!["https://example.org/two.css".to_string()]);
}

#[test]
fn transport_failure_aborts_with_context() {
    let outcomes = vec![
        FetchOutcome { number: 4, page: Ok(numbered_page("ok")) },
        FetchOutcome { number: 5, page: Err("connection refused".to_string()) },
        FetchOutcome { number: 6, page: Ok(numbered_page("late")) },
    ];
    let err = collect_year(2011, outcomes).unwrap_err();
    assert_eq!(err.year, 2011);
    assert_eq!(err.number, 5);
    assert_eq!(err.kind, HarvestFailure::Transport("connection refused".to_string()));
}

#[test]
fn missing_container_fails_the_year_with_context() {
    let outcomes = vec![
        FetchOutcome { number: 7, page: Ok("<html><body><p>bare</p></body></html>".to_string()) },
    ];
    let err = collect_year(1999, outcomes).unwrap_err();
    assert_eq!(err.year, 1999);
    assert_eq!(err.number, 7);
    assert_eq!(err.kind, HarvestFailure::Extract(ExtractError::ContainerNotFound));
}

#[test]
fn assemble_keeps_year_order_and_seeds_styles_once() {
    let first = collect_year(
        2003,
        vec![FetchOutcome { number: 1, page: Ok(bare_page("x")) }],
    );
    let second = collect_year(
        2004,
        vec![FetchOutcome { number: 1, page: Ok(numbered_page("y")) }],
    );
    let third = collect_year(
        2005,
        vec![FetchOutcome { number: 1, page: Ok(numbered_page("z")) }],
    );
    let result = assemble(Challenge::Amc8, vec![first, second, third]).unwrap();
    assert!(!result.is_solution);
    let years: Vec<u32> = result.contents.iter().map(|c| c.year).collect();
    assert_eq!(years, vec![2003, 2004, 2005]);
    assert_eq!(result.styles, vec!["https://example.org/y.css".to_string()]);
}

#[test]
fn assemble_surfaces_the_first_failed_year() {
    let good = collect_year(
        2003,
        vec![FetchOutcome { number: 1, page: Ok(numbered_page("g")) }],
    );
    let bad = collect_year(
        2004,
        vec![FetchOutcome { number: 9, page: Err("timed out".to_string()) }],
    );
    let err = assemble(Challenge::Amc10a, vec![good, bad]).unwrap_err();
    assert_eq!(err.year, 2004);
    assert_eq!(err.number, 9);
    assert_eq!(err.kind, HarvestFailure::Transport("timed out".to_string()));
}

#[test]
fn year_list_flattens_spans_without_dedup() {
    let scraper = AopsScraper {
        years: vec![Span { lo: 2000, hi: 2002 }, Span { lo: 2001, hi: 2001 }],
        problems: Span { lo: 21, hi: 25 },
        challenge: Challenge::Amc8,
    };
    assert_eq!(scraper.year_list(), vec![2000, 2001, 2002, 2001]);
    assert_eq!(scraper.problem_list(), vec![21, 22, 23, 24, 25]);
}

#[test]
fn empty_span_yields_no_years() {
    let scraper = AopsScraper {
        years: vec![Span { lo: 2010, hi: 2009 }],
        problems: Span { lo: 3, hi: 1 },
        challenge: Challenge::Amc8,
    };
    assert_eq!(scraper.year_list(), Vec::<u32>::new());
    assert_eq!(scraper.problem_list(), Vec::<u32>::new());
}

#[test]
fn render_problem_should_work() {
    let content = numbered_page("p");
    let result = html_concat::aops::parse_html(2003, 23, &content).unwrap();
    let mut ret = AopsScrapeResult {
        styles: html_concat::aops::get_stylesheets(&content),
        challenge: Challenge::Amc8,
        is_solution: false,
        contents: vec![AopsContent { year: 2003, problems: vec![result] }],
    };
    let rendered = ret.generate_problem();
    assert!(!ret.is_solution);
    assert!(rendered.contains("https://example.org/p.css"));
    assert!(rendered.contains("Problem p."));
    assert!(!rendered.contains("Solution p."));
}

#[test]
fn render_solution_should_work() {
    let mut ret = AopsScrapeResult {
        styles: vec!["s.css".to_string()],
        challenge: Challenge::Amc8,
        is_solution: false,
        contents: vec![AopsContent {
            year: 2005,
            problems: vec![AopsProblem {
                year: 2005,
                number: 24,
                problem: "<p>P</p>".to_string(),
                solution: "<p>S</p>".to_string(),
            }],
        }],
    };
    let rendered = ret.generate_solution();
    assert!(ret.is_solution);
    assert_eq!(rendered, "<link rel=\"stylesheet\" href=\"s.css\">\n<p>S</p>\n");
    let rendered = ret.generate_problem();
    assert!(!ret.is_solution);
    assert_eq!(rendered, "<link rel=\"stylesheet\" href=\"s.css\">\n<p>P</p>\n");
}

#[test]
fn harvest_request_end_to_end() {
    let scraper = AopsScraper {
        years: vec![Span { lo: 2003, hi: 2003 }],
        problems: Span { lo: 23, hi: 23 },
        challenge: Challenge::Amc8,
    };
    assert_eq!(scraper.year_list(), vec![2003]);
    assert_eq!(scraper.problem_list(), vec![23]);

    let mut year_results = Vec::new();
    for year in scraper.year_list() {
        let outcomes: Vec<FetchOutcome> = scraper
            .problem_list()
            .into_iter()
            .map(|number| FetchOutcome { number, page: Ok(numbered_page("fixture")) })
            .collect();
        year_results.push(collect_year(year, outcomes));
    }
    let result = assemble(scraper.challenge, year_results).unwrap();
    assert_eq!(result.contents.len(), 1);
    assert_eq!(result.contents[0].year, 2003);
    assert_eq!(result.contents[0].problems[0].number, 23);
    assert!(result.contents[0].problems[0].problem.contains("Problem fixture."));
    assert!(!result.contents[0].problems[0].problem.contains("Solution fixture."));
    assert!(result.contents[0].problems[0].solution.contains("Solution fixture."));
}

#[test]
fn whole_run_reports_missing_container_with_context() {
    // One bad page in the middle year: the whole multi-year run is
    // all-or-nothing and reports that (year, number); the successful years'
    // work is discarded.
    let before = collect_year(
        2006,
        vec![FetchOutcome { number: 12, page: Ok(numbered_page("fine")) }],
    );
    let bad_year = collect_year(
        2007,
        vec![
            FetchOutcome { number: 11, page: Ok(numbered_page("good")) },
            FetchOutcome {
                number: 12,
                page: Ok("<html><body><p>empty shell</p></body></html>".to_string()),
            },
        ],
    );
    let after = collect_year(
        2008,
        vec![FetchOutcome { number: 12, page: Ok(numbered_page("late")) }],
    );
    let err = assemble(Challenge::Amc8, vec![before, bad_year, after]).unwrap_err();
    assert_eq!(err.year, 2007);
    assert_eq!(err.number, 12);
    assert_eq!(err.kind, HarvestFailure::Extract(ExtractError::ContainerNotFound));
}

#[test]
fn new_year_group_is_empty() {
    let content = AopsContent::new(2016);
    assert_eq!(content.year, 2016);
    assert!(content.problems.is_empty());
}

fn problem(number: u32, marker: &str) -> AopsProblem {
    AopsProblem {
        year: 2012,
        number,
        problem: format!("<p>{marker}</p>"),
        solution: String::new(),
    }
}

#[test]
fn equal_numbers_keep_arrival_order() {
    let mut ps = Vec::new();
    insert_sorted(&mut ps, problem(5, "first"));
    insert_sorted(&mut ps, problem(3, "lone"));
    insert_sorted(&mut ps, problem(5, "second"));
    let numbers: Vec<u32> = ps.iter().map(|p| p.number).collect();
    assert_eq!(numbers, vec![3, 5, 5]);
    assert!(ps[1].problem.contains("first"));
    assert!(ps[2].problem.contains("second"));
}
