use changelog::{changelog, classify, Args, Category, CommitCollection, CommitTitle, Report};

fn lines(v: &[&str]) -> Vec<String> {
    v.iter().map(|s| s.to_string()).collect()
}

#[test]
fn feature_lands_in_features() {
    let r = Report::from_lines(&lines(&["(4b05c2e) new,core: implement commit title parser"]));
    assert_eq!(r.features().len(), 1);
    assert_eq!(r.features().render(), "* core: implement commit title parser\n");
    assert!(r.breaking().is_empty());
    assert!(r.uncategorized().is_empty());
}

#[test]
fn breaking_wins_over_type() {
    let r = Report::from_lines(&lines(&[
        "(adad53h) rew!plugins: remove famiu/nvim-reload",
        "(1111111) fix!core: change the format",
    ]));
    assert_eq!(r.breaking().len(), 2);
    assert!(r.fixes().is_empty());
    assert!(r.uncategorized().is_empty());
    assert_eq!(
        r.breaking().render(),
        "* plugins: remove famiu/nvim-reload\n* core: change the format\n"
    );
}

#[test]
fn title_without_component_renders_summary_only() {
    let r = Report::from_lines(&lines(&["(8eee8e5) new: initiate changelog generator"]));
    assert_eq!(r.features().render(), "* initiate changelog generator\n");
}

#[test]
fn unmatched_line_is_kept_verbatim() {
    let r = Report::from_lines(&lines(&["Merge pull request #12"]));
    assert_eq!(r.uncategorized(), &vec!["Merge pull request #12".to_string()]);
    assert!(r.breaking().is_empty());
    assert!(r.features().is_empty());
    assert!(r.fixes().is_empty());
    assert!(r.changes().is_empty());
}

#[test]
fn unknown_type_is_kept_as_raw_line() {
    let raw = "(e0fbc13) rew,core: remove useless pretty arg";
    let r = Report::from_lines(&lines(&[raw]));
    assert_eq!(r.uncategorized(), &vec![raw.to_string()]);
    assert!(r.changes().is_empty());
}

#[test]
fn each_type_has_its_section() {
    let r = Report::from_lines(&lines(&[
        "(a1) new: a feature",
        "(a2) fix,io: a fix",
        "(a3) rwt: a rework",
        "(a4) doc: a note",
        "no title here",
    ]));
    assert_eq!(r.features().render(), "* a feature\n");
    assert_eq!(r.fixes().render(), "* io: a fix\n");
    assert_eq!(r.changes().render(), "* a rework\n");
    assert_eq!(r.breaking().render(), "Null");
    assert_eq!(
        r.uncategorized(),
        &vec!["(a4) doc: a note".to_string(), "no title here".to_string()]
    );
}

#[test]
fn features_keep_their_order() {
    let r = Report::from_lines(&lines(&[
        "(c1) new: first",
        "(c2) new,ui: second",
        "(c3) new: third",
    ]));
    assert_eq!(r.features().render(), "* first\n* ui: second\n* third\n");
    assert_eq!(r.features().get(1).hash(), "c2");
}

#[test]
fn empty_bucket_renders_null() {
    assert_eq!(CommitCollection::new().render(), "Null");
}

#[test]
fn push_appends_at_the_end() {
    let mut c = CommitCollection::new();
    c.push(CommitTitle::new("(a) fix: one").unwrap());
    c.push(CommitTitle::new("(b) fix: two").unwrap());
    assert_eq!(c.len(), 2);
    assert_eq!(c.get(0).summary(), "one");
    assert_eq!(c.render(), "* one\n* two\n");
}

#[test]
fn classify_gives_each_category() {
    let cat = |s: &str| classify(&CommitTitle::new(s).unwrap());
    assert_eq!(cat("(a) new: x"), Category::Feature);
    assert_eq!(cat("(a) fix: x"), Category::Fix);
    assert_eq!(cat("(a) rwt: x"), Category::Change);
    assert_eq!(cat("(a) rew: x"), Category::Uncategorized);
    assert_eq!(cat("(a) NEW: x"), Category::Uncategorized);
    assert_eq!(cat("(a) fix!: x"), Category::Breaking);
}

#[test]
fn add_line_files_one_line() {
    let mut r = Report::new();
    r.add_line("(a) fix: x");
    r.add_line("(b) new,core: y");
    assert_eq!(r.fixes().len(), 1);
    assert_eq!(r.features().len(), 1);
}

#[test]
fn report_document_has_every_section() {
    let r = Report::from_lines(&lines(&[
        "(adad53h) rew!plugins: remove famiu/nvim-reload",
        "(4b05c2e) new,core: implement commit title parser",
        "(8eee8e5) new: initiate changelog generator",
    ]));
    let expected = "v1..v2\n==========\nfirst release\n\n\nBreaking Changes\n----------------\n* plugins: remove famiu/nvim-reload\n\n\nFeatures\n--------\n* core: implement commit title parser\n* initiate changelog generator\n\n\nFix\n---\nNull\n\nChanges\n--------\nNull\n";
    assert_eq!(r.render("v1..v2", "first release"), expected);
}

#[test]
fn changelog_uses_args() {
    let a = Args::new("HEAD~3..HEAD".to_string(), None);
    assert_eq!(a.range(), "HEAD~3..HEAD");
    assert_eq!(a.description(), None);
    assert_eq!(a.description_text(), "");
    let text = changelog(&a, &lines(&["(a1) fix: one"]));
    assert_eq!(
        text,
        "HEAD~3..HEAD\n==========\n\n\n\nBreaking Changes\n----------------\nNull\n\nFeatures\n--------\nNull\n\nFix\n---\n* one\n\n\nChanges\n--------\nNull\n"
    );
    let b = Args::new("v1".to_string(), Some("notes".to_string()));
    assert_eq!(b.description(), Some(&"notes".to_string()));
    assert!(changelog(&b, &Vec::new()).starts_with("v1\n==========\nnotes\n"));
}
