use rgit::error::GitError;
use rgit::obj::tree::{encode_tree, parse_tree, tree_listing, TreeEntry};
use rgit::obj::{decode_object, encode_object, new_obj, render, Blob, Commit, Obj, Object, Tag, Tree, Type};


fn kinds() -> Vec<Type> {
    vec![Type::Blob, Type::Tree, Type::Commit, Type::Tag]
}

fn raw_sha(seed: u8) -> Vec<u8> {
    (0..20u8).map(|i| i.wrapping_mul(13).wrapping_add(seed)).collect()
}

#[test]
fn blob_hello_encodes_hashes_and_renders() {
    let blob = Blob::new(b"hello\n".to_vec());
    let (address, encoded) = blob.hash();
    assert_eq!(encoded, b"blob 6\0hello\n".to_vec());
    assert_eq!(address, "ce013625030ba8dba906f756967f9e9ca394464a");
    let again = Blob::new(b"hello\n".to_vec()).hash();
    assert_eq!(again.0, address);
    let back = new_obj(encoded).unwrap();
    assert!(back.obj_type() == Type::Blob);
    assert_eq!(back.to_string().unwrap(), "hello\n");
}

#[test]
fn empty_tree_encodes_and_renders_empty() {
    let tree = Tree::new(Vec::new());
    let (address, encoded) = tree.hash();
    assert_eq!(encoded, b"tree 0\0".to_vec());
    assert_eq!(address, "4b825dc642cb6eb9a060e54bf8d69288fbee4904");
    assert_eq!(tree.to_string().unwrap(), "");
    assert_eq!(tree.entries().unwrap().len(), 0);
}

#[test]
fn decode_of_encode_gives_kind_and_payload() {
    let payloads: Vec<Vec<u8>> = vec![
        Vec::new(),
        b"hello\n".to_vec(),
        vec![0, 32, 0, 255, 10],
        b"blob 3\0abc".to_vec(),
        vec![7u8; 1000],
    ];
    for k in kinds() {
        for p in payloads.iter() {
            let enc = encode_object(k, p);
            let (k2, p2) = decode_object(&enc).unwrap();
            assert!(k2 == k);
            assert_eq!(&p2, p);
            let o = new_obj(enc).unwrap();
            assert!(o.obj_type() == k);
            assert_eq!(o.content(), p);
            assert_eq!(o.size(), p.len());
        }
    }
}

#[test]
fn encoding_spells_header() {
    assert_eq!(encode_object(Type::Commit, b"abc"), b"commit 3\0abc".to_vec());
    assert_eq!(encode_object(Type::Tag, &vec![1u8; 12]).len(), "tag 12\0".len() + 12);
    assert_eq!(&encode_object(Type::Tag, &vec![1u8; 12])[..7], b"tag 12\0");
    assert_eq!(&encode_object(Type::Blob, &vec![0u8; 100])[..9], b"blob 100\0");
}

#[test]
fn address_depends_on_kind_and_payload() {
    let a = Blob::new(b"same".to_vec()).hash().0;
    let b = Blob::new(b"same".to_vec()).hash().0;
    let c = Tag::new(b"same".to_vec()).hash().0;
    let d = Blob::new(b"same!".to_vec()).hash().0;
    assert_eq!(a, b);
    assert_ne!(a, c);
    assert_ne!(a, d);
    assert_eq!(a.len(), 40);
    assert!(a.chars().all(|ch| ch.is_ascii_hexdigit() && !ch.is_ascii_uppercase()));
}

#[test]
fn decode_without_nul_is_malformed() {
    assert_eq!(new_obj(b"blob 5hello".to_vec()).err(), Some(GitError::MalformedHeader));
    assert_eq!(new_obj(Vec::new()).err(), Some(GitError::MalformedHeader));
}

#[test]
fn decode_without_space_is_malformed() {
    assert_eq!(new_obj(b"blob\0".to_vec()).err(), Some(GitError::MalformedHeader));
}

#[test]
fn decode_unknown_kind() {
    assert_eq!(new_obj(b"blorb 1\0x".to_vec()).err(), Some(GitError::UnknownObjectKind));
    assert_eq!(new_obj(b"Blob 1\0x".to_vec()).err(), Some(GitError::UnknownObjectKind));
}

#[test]
fn decode_length_mismatch_is_malformed() {
    assert_eq!(new_obj(b"blob 5\0hello\n".to_vec()).err(), Some(GitError::MalformedHeader));
    assert_eq!(new_obj(b"blob 06\0hello\n".to_vec()).err(), Some(GitError::MalformedHeader));
    assert_eq!(new_obj(b"blob \0".to_vec()).err(), Some(GitError::MalformedHeader));
}

#[test]
fn decode_tag_kind() {
    let o = new_obj(b"tag 4\0v1.0".to_vec()).unwrap();
    assert!(o.obj_type() == Type::Tag);
    assert_eq!(o.to_string().unwrap(), "v1.0");
    assert!(o.parent().is_none());
}

fn tree_payload() -> Vec<u8> {
    let mut p = Vec::new();
    p.extend_from_slice(b"100644 README\0");
    p.extend_from_slice(&raw_sha(1));
    p.extend_from_slice(b"40000 src\0");
    p.extend_from_slice(&raw_sha(2));
    p.extend_from_slice(b"160000 sub module\0");
    p.extend_from_slice(&raw_sha(3));
    p
}

#[test]
fn tree_entries_keep_order_and_reencode() {
    let p = tree_payload();
    let entries = parse_tree(&p).unwrap();
    assert_eq!(entries.len(), 3);
    assert_eq!(entries[0].mode, b"100644".to_vec());
    assert_eq!(entries[0].name, b"README".to_vec());
    assert_eq!(entries[0].sha, raw_sha(1));
    assert_eq!(entries[1].mode, b"40000".to_vec());
    assert_eq!(entries[1].name, b"src".to_vec());
    assert_eq!(entries[2].name, b"sub module".to_vec());
    assert_eq!(entries[2].sha, raw_sha(3));
    assert_eq!(encode_tree(&entries), p);
}

#[test]
fn tree_address_bytes_may_look_like_delimiters() {
    let mut sha = vec![0u8; 20];
    sha[3] = b' ';
    sha[7] = b'\n';
    let entries = vec![
        TreeEntry { mode: b"100755".to_vec(), name: b"run.sh".to_vec(), sha: sha.clone() },
        TreeEntry { mode: b"120000".to_vec(), name: b"link".to_vec(), sha: vec![32u8; 20] },
    ];
    let p = encode_tree(&entries);
    assert_eq!(parse_tree(&p).unwrap(), entries);
}

#[test]
fn tree_listing_lines() {
    let p = tree_payload();
    let tree = Tree::new(p.clone());
    let expected = format!(
        "100644 blob {}\tREADME\n040000 tree {}\tsrc\n160000 commit {}\tsub module",
        hex::encode(raw_sha(1)),
        hex::encode(raw_sha(2)),
        hex::encode(raw_sha(3))
    );
    assert_eq!(tree.to_string().unwrap(), expected);
    let listing = tree_listing(&parse_tree(&p).unwrap());
    assert_eq!(String::from_utf8(listing).unwrap(), expected);
    let o = new_obj(encode_object(Type::Tree, &p)).unwrap();
    assert_eq!(o.to_string().unwrap(), expected);
}

#[test]
fn tree_short_mode_is_padded_and_other_modes_are_blobs() {
    let entries = vec![TreeEntry { mode: b"644".to_vec(), name: b"f".to_vec(), sha: vec![0xab; 20] }];
    let text = render(Type::Tree, &encode_tree(&entries)).unwrap();
    assert_eq!(text, format!("000644 blob {}\tf", "ab".repeat(20)));
}

#[test]
fn malformed_trees_are_reported() {
    // no NUL after the name
    assert_eq!(Tree::new(b"100644 name".to_vec()).to_string().err(), Some(GitError::MalformedTree));
    // address cut short
    let mut short = b"100644 a\0".to_vec();
    short.extend_from_slice(&[1u8; 19]);
    assert_eq!(Tree::new(short).entries().err(), Some(GitError::MalformedTree));
    // mode that is not digits
    let mut bad_mode = b"10x644 a\0".to_vec();
    bad_mode.extend_from_slice(&[1u8; 20]);
    assert!(parse_tree(&bad_mode).is_none());
    // no space at all
    assert!(parse_tree(b"100644").is_none());
    // empty mode
    let mut empty_mode = b" a\0".to_vec();
    empty_mode.extend_from_slice(&[1u8; 20]);
    assert!(parse_tree(&empty_mode).is_none());
}

#[test]
fn commit_parent_from_header() {
    let parent = "0123456789abcdef0123456789abcdef01234567";
    let body = format!(
        "tree 4b825dc642cb6eb9a060e54bf8d69288fbee4904\nparent {}\nauthor A <a@b> 0 +0000\n\nmessage\nparent nope\n",
        parent
    );
    let c = Commit::new(body.clone().into_bytes());
    assert_eq!(c.parent(), Some(parent.to_string()));
    assert_eq!(c.to_string().unwrap(), body);
    let o = new_obj(encode_object(Type::Commit, body.as_bytes())).unwrap();
    assert_eq!(o.parent(), Some(parent.to_string()));
}

#[test]
fn root_commit_has_no_parent() {
    let body = "tree 4b825dc642cb6eb9a060e54bf8d69288fbee4904\nauthor A <a@b> 0 +0000\n\nparents are elsewhere\n";
    assert_eq!(Commit::new(body.as_bytes().to_vec()).parent(), None);
    assert_eq!(Commit::new(Vec::new()).parent(), None);
    assert_eq!(Commit::new(b"parentless\n".to_vec()).parent(), None);
}

#[test]
fn only_commits_have_parents() {
    let body = b"parent 0123456789abcdef0123456789abcdef01234567\n".to_vec();
    assert_eq!(Blob::new(body.clone()).parent(), None);
    assert_eq!(Tag::new(body.clone()).parent(), None);
    assert_eq!(Tree::new(Vec::new()).parent(), None);
    assert!(Commit::new(body).parent().is_some());
}

#[test]
fn invalid_utf8_renders_lossily() {
    let o = Object::Blob(Blob::new(vec![b'a', 0xff, b'b']));
    assert_eq!(o.to_string().unwrap(), "a\u{fffd}b");
}

#[test]
fn type_names() {
    assert_eq!(Type::Blob.name(), "blob");
    assert_eq!(Type::Tree.name(), "tree");
    assert_eq!(Type::Commit.name(), "commit");
    assert_eq!(Type::Tag.name(), "tag");
}

#[test]
fn object_new_decodes_and_reencodes_to_the_same_bytes() {
    for raw in [b"blob 6\0hello\n".to_vec(), b"tree 0\0".to_vec(), b"commit 3\0a\nb".to_vec(), b"tag 0\0".to_vec()] {
        let o = Object::new(raw.clone()).unwrap();
        assert_eq!(o.hash().1, raw);
        assert_eq!(o.size(), new_obj(raw.clone()).unwrap().size());
    }
    assert!(matches!(Object::new(b"blob 1\0".to_vec()), Err(GitError::MalformedHeader)));
}

#[test]
fn parent_line_is_found_on_any_line() {
    let a = "0123456789abcdef0123456789abcdef01234567";
    let body = format!("\nparent {}", a);
    assert_eq!(Commit::new(body.into_bytes()).parent(), Some(a.to_string()));
    let body = format!("tree x\n\nmessage\nparent {}\nparent ffff\n", a);
    assert_eq!(Commit::new(body.into_bytes()).parent(), Some(a.to_string()));
}

#[test]
fn child_kind_follows_the_type_digits() {
    let entries = vec![
        TreeEntry { mode: b"40755".to_vec(), name: b"d".to_vec(), sha: vec![0x11; 20] },
        TreeEntry { mode: b"160644".to_vec(), name: b"m".to_vec(), sha: vec![0x22; 20] },
        TreeEntry { mode: b"120000".to_vec(), name: b"l".to_vec(), sha: vec![0x33; 20] },
    ];
    let text = render(Type::Tree, &encode_tree(&entries)).unwrap();
    assert_eq!(
        text,
        format!("040755 tree {}\td\n160644 commit {}\tm\n120000 blob {}\tl", "11".repeat(20), "22".repeat(20), "33".repeat(20))
    );
}
