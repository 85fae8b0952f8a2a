use changelog::CommitTitle;
use regex::Regex;

fn should_work(expect: &str) -> bool {
    let ct = CommitTitle::new(expect);
    println!("{:?}", ct);
    ct.is_some()
}

#[test]
fn commit_test_regex() {
    assert!(should_work("(4b05c2e) new,core: implement commit title parser"));
    assert!(should_work("(e0fbc13) rew,core: remove useless pretty arg"));
    assert!(should_work("(8eee8e5) new: initiate changelog generator"));
    assert!(should_work("(adad53h) rew!plugins: remove famiu/nvim-reload"));
}

#[test]
fn mod_test_regex() {
    assert!(should_work("(4b05c2e) new,core: implement commit title parser"));
    assert!(should_work("(e0fbc13) rew,core: remove useless pretty arg"));
    assert!(should_work("(8eee8e5) new: initiate changelog generator"));
    assert!(should_work("(adad53h) rew!plugins: remove famiu/nvim-reload"));
}

#[test]
fn parses_feature_with_component() {
    let t = CommitTitle::new("(4b05c2e) new,core: implement commit title parser").unwrap();
    assert_eq!(t.hash(), "4b05c2e");
    assert_eq!(t.prefix(), "new");
    assert_eq!(t.component(), Some("core"));
    assert_eq!(t.summary(), "implement commit title parser");
    assert!(!t.is_breaking());
}

#[test]
fn parses_breaking_marker() {
    let t = CommitTitle::new("(adad53h) rew!plugins: remove famiu/nvim-reload").unwrap();
    assert_eq!(t.hash(), "adad53h");
    assert_eq!(t.prefix(), "rew");
    assert_eq!(t.component(), Some("plugins"));
    assert_eq!(t.summary(), "remove famiu/nvim-reload");
    assert!(t.is_breaking());
}

#[test]
fn parses_title_without_component() {
    let t = CommitTitle::new("(8eee8e5) new: initiate changelog generator").unwrap();
    assert_eq!(t.prefix(), "new");
    assert_eq!(t.component(), None);
    assert_eq!(t.summary(), "initiate changelog generator");
    assert!(!t.is_breaking());
}

#[test]
fn breaking_marker_without_component() {
    let t = CommitTitle::new("(abc) fix!: drop the old flag").unwrap();
    assert!(t.is_breaking());
    assert_eq!(t.component(), None);
    assert_eq!(t.summary(), "drop the old flag");
}

#[test]
fn component_without_separator() {
    let t = CommitTitle::new("(abc) newcore/io: read faster").unwrap();
    assert_eq!(t.prefix(), "new");
    assert_eq!(t.component(), Some("core/io"));
    assert!(!t.is_breaking());
}

#[test]
fn merge_line_does_not_match() {
    assert!(CommitTitle::new("Merge pull request #12").is_none());
}

#[test]
fn lines_outside_the_grammar_do_not_match() {
    assert!(CommitTitle::new("4b05c2e new,core: no parentheses").is_none());
    assert!(CommitTitle::new("(4b05c2e) ne,core: two letters").is_none());
    assert!(CommitTitle::new("(4b05c2e) feat,core: four letters").is_none());
    assert!(CommitTitle::new("(4b05c2e) new,core - no colon").is_none());
    assert!(CommitTitle::new("(4b05c2e) new,core:no space").is_none());
    assert!(CommitTitle::new("(4b05c2e) new,core: ").is_none());
    assert!(CommitTitle::new("() new: empty hash").is_none());
    assert!(CommitTitle::new("(4b-05) new: dash in hash").is_none());
    assert!(CommitTitle::new("").is_none());
}

#[test]
fn first_match_in_the_line_is_taken() {
    let t = CommitTitle::new("x (a1) fix: one (b2) new: two").unwrap();
    assert_eq!(t.hash(), "a1");
    assert_eq!(t.prefix(), "fix");
    assert_eq!(t.summary(), "one (b2) new: two");
}

#[test]
fn summary_stops_at_newline() {
    let t = CommitTitle::new("(a1) fix: first\nsecond").unwrap();
    assert_eq!(t.summary(), "first");
}

#[test]
fn info_lists_every_field() {
    let t = CommitTitle::new("(8eee8e5) new: initiate changelog generator").unwrap();
    assert_eq!(
        t.info(),
        "Commit Information:\nHash: 8eee8e5\nType: new\nComponent: No Component\nSummary: initiate changelog generator\nIs Breaking Change: false"
    );
    let t = CommitTitle::new("(adad53h) rew!plugins: remove famiu/nvim-reload").unwrap();
    assert_eq!(
        t.info(),
        "Commit Information:\nHash: adad53h\nType: rew\nComponent: plugins\nSummary: remove famiu/nvim-reload\nIs Breaking Change: true"
    );
}

#[test]
fn agrees_with_a_regular_expression() {
    let re = Regex::new(r"\(([a-zA-Z0-9]+)\) ([a-zA-Z]{3})([,!]?)([a-zA-Z/]*): (.+)").unwrap();
    let lines = [
        "(4b05c2e) new,core: implement commit title parser",
        "(e0fbc13) rew,core: remove useless pretty arg",
        "(8eee8e5) new: initiate changelog generator",
        "(adad53h) rew!plugins: remove famiu/nvim-reload",
        "Merge pull request #12",
        "(abc) feat: four letters",
        "(abc) feat,x: four letters",
        "((abc) new: nested paren",
        "(a) (b) new: second one",
        "(a) new: x\ny",
        "(a) new,: empty component",
        "(a) new!!: two marks",
        "(a) new: héllo wörld",
        "(ä) new: non-ascii hash",
        "(a) new:: double colon: yes",
    ];
    for line in lines.iter() {
        let ours = CommitTitle::new(line);
        match re.captures(line) {
            None => assert!(ours.is_none(), "{}", line),
            Some(cap) => {
                let t = ours.unwrap();
                assert_eq!(t.hash(), cap.get(1).unwrap().as_str());
                assert_eq!(t.prefix(), cap.get(2).unwrap().as_str());
                assert_eq!(t.is_breaking(), cap.get(3).unwrap().as_str() == "!");
                let comp = cap.get(4).map(|m| m.as_str()).filter(|s| !s.is_empty());
                assert_eq!(t.component(), comp);
                assert_eq!(t.summary(), cap.get(5).unwrap().as_str());
            }
        }
    }
}
