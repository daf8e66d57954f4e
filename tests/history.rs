use rgit::commands::{add, check_ignore, checkout, commit, rev_parse, rm, status, tag, write_tree, Commands};
use rgit::error::GitError;
use rgit::history::{LogStep, LogWalk};
use rgit::obj::{Commit, Object, Blob};

fn commit_obj(parent: Option<&str>) -> Object {
    let mut body = "tree 4b825dc642cb6eb9a060e54bf8d69288fbee4904\n".to_string();
    if let Some(p) = parent {
        body.push_str(&format!("parent {}\n", p));
    }
    body.push_str("author A <a@b> 0 +0000\n\nmsg\n");
    Object::Commit(Commit::new(body.into_bytes()))
}

const C1: &str = "1111111111111111111111111111111111111111";
const C2: &str = "2222222222222222222222222222222222222222";
const C3: &str = "3333333333333333333333333333333333333333";

#[test]
fn walk_follows_parents_to_the_root() {
    let mut walk = LogWalk::new(&C3.to_string());
    match walk.advance(&commit_obj(Some(C2))) {
        LogStep::Load(a) => assert_eq!(a, C2),
        LogStep::Done => panic!("expected the parent"),
    }
    match walk.advance(&commit_obj(Some(C1))) {
        LogStep::Load(a) => assert_eq!(a, C1),
        LogStep::Done => panic!("expected the parent"),
    }
    assert!(matches!(walk.advance(&commit_obj(None)), LogStep::Done));
}

#[test]
fn walk_stops_on_a_repeated_address() {
    let mut walk = LogWalk::new(&C1.to_string());
    assert!(matches!(walk.advance(&commit_obj(Some(C1))), LogStep::Done));
    let mut walk = LogWalk::new(&C1.to_string());
    assert!(matches!(walk.advance(&commit_obj(Some(C2))), LogStep::Load(_)));
    assert!(matches!(walk.advance(&commit_obj(Some(C1))), LogStep::Done));
}

#[test]
fn walk_stops_at_a_non_commit() {
    let mut walk = LogWalk::new(&C1.to_string());
    let blob = Object::Blob(Blob::new(format!("parent {}\n", C2).into_bytes()));
    assert!(matches!(walk.advance(&blob), LogStep::Done));
}

#[test]
fn unprovided_commands_report_unsupported() {
    let e = Err(GitError::Unsupported);
    assert_eq!(add(Commands::Add { files: vec!["a".to_string()] }), e);
    assert_eq!(commit(Commands::Commit {}), e);
    assert_eq!(status(Commands::Status {}), e);
    assert_eq!(rm(Commands::Rm {}), e);
    assert_eq!(checkout(Commands::Checkout {}), e);
    assert_eq!(check_ignore(Commands::CheckIgnore {}), e);
    assert_eq!(write_tree(Commands::WriteTree), e);
    assert_eq!(rev_parse(Commands::RevParse {}), e);
    assert_eq!(tag(Commands::Tag {}), e);
}
