use rgit::error::GitError;
use rgit::obj::{Blob, Obj, Type};
use rgit::repo::{load_obj, select_prefix, ObjLocation, Repo};
use std::collections::HashMap;

fn zlib(data: &[u8]) -> Vec<u8> {
    let mut enc = flate2::write::ZlibEncoder::new(Vec::new(), flate2::Compression::default());
    std::io::Write::write_all(&mut enc, data).unwrap();
    enc.finish().unwrap()
}

fn unzlib(data: &[u8]) -> Vec<u8> {
    let mut out = Vec::new();
    std::io::Read::read_to_end(&mut flate2::read::ZlibDecoder::new(data), &mut out).unwrap();
    out
}


const HELLO: &str = "ce013625030ba8dba906f756967f9e9ca394464a";

fn repo() -> Repo {
    Repo::new("/work".to_string())
}

#[test]
fn store_root_is_dot_git() {
    assert_eq!(repo().git_dir(), "/work/.git");
}

#[test]
fn full_address_names_its_file() {
    match repo().locate_obj(HELLO) {
        Ok(ObjLocation::File(p)) => {
            assert_eq!(p, "/work/.git/objects/ce/013625030ba8dba906f756967f9e9ca394464a")
        },
        _ => panic!("expected a file"),
    }
}

#[test]
fn prefix_names_a_directory_to_scan() {
    match repo().locate_obj("ce01") {
        Ok(ObjLocation::Scan { dir, rest }) => {
            assert_eq!(dir, "/work/.git/objects/ce");
            assert_eq!(rest, "01");
        },
        _ => panic!("expected a scan"),
    }
}

#[test]
fn bad_addresses_are_refused() {
    for bad in ["ce0", "", "CE01", "zz12", "ce01/../x", &format!("{}0", HELLO)] {
        assert!(matches!(repo().locate_obj(bad), Err(GitError::InvalidAddress)), "{}", bad);
    }
}

fn names(v: &[&str]) -> Vec<String> {
    v.iter().map(|s| s.to_string()).collect()
}

#[test]
fn prefix_shared_by_two_objects_is_ambiguous() {
    let listing = names(&["013625030ba8dba906f756967f9e9ca394464a", "0199999999999999999999999999999999999a"]);
    assert_eq!(select_prefix(&listing, "01"), Err(GitError::AmbiguousPrefix));
}

#[test]
fn prefix_matching_one_object_picks_it() {
    let listing = names(&["013625030ba8dba906f756967f9e9ca394464a", "0199999999999999999999999999999999999a"]);
    assert_eq!(select_prefix(&listing, "0136"), Ok("013625030ba8dba906f756967f9e9ca394464a".to_string()));
    assert_eq!(select_prefix(&listing, "0199"), Ok("0199999999999999999999999999999999999a".to_string()));
}

#[test]
fn prefix_matching_nothing_is_not_found() {
    let listing = names(&["013625030ba8dba906f756967f9e9ca394464a"]);
    assert_eq!(select_prefix(&listing, "ff"), Err(GitError::NotFound));
    assert_eq!(select_prefix(&Vec::new(), "01"), Err(GitError::NotFound));
}

#[test]
fn write_plan_places_compressed_object() {
    let (address, encoded) = Blob::new(b"hello\n".to_vec()).hash();
    let plan = repo().plan_write(&address, &encoded).unwrap();
    assert_eq!(plan.dir, "/work/.git/objects/ce");
    assert_eq!(plan.path, "/work/.git/objects/ce/013625030ba8dba906f756967f9e9ca394464a");
    assert_ne!(plan.data, encoded);
    assert_eq!(unzlib(&plan.data), encoded);
    assert_eq!(plan.data, zlib(&encoded));
}

#[test]
fn write_plan_refuses_short_address() {
    assert!(matches!(repo().plan_write("ce01", &Vec::new()), Err(GitError::InvalidAddress)));
}

#[test]
fn writing_twice_leaves_the_store_as_once() {
    let (address, encoded) = Blob::new(b"hello\n".to_vec()).hash();
    let apply = |files: &mut HashMap<String, Vec<u8>>| {
        let plan = repo().plan_write(&address, &encoded).unwrap();
        files.entry(plan.path).or_insert(plan.data);
    };
    let mut once = HashMap::new();
    apply(&mut once);
    let mut twice = HashMap::new();
    apply(&mut twice);
    apply(&mut twice);
    assert_eq!(once, twice);
    assert_eq!(once.len(), 1);
}

#[test]
fn stored_object_loads_back() {
    let (_, encoded) = Blob::new(b"hello\n".to_vec()).hash();
    let file = zlib(&encoded);
    let o = load_obj(&file).unwrap();
    assert!(o.obj_type() == Type::Blob);
    assert_eq!(o.to_string().unwrap(), "hello\n");
    assert_eq!(o.size(), 6);
}

#[test]
fn loading_garbage_is_corrupt() {
    assert!(matches!(load_obj(b"\x00\x01\x02"), Err(GitError::CorruptStream)));
    let mut truncated = zlib(b"blob 6\0hello\n");
    truncated.truncate(truncated.len() - 3);
    assert!(matches!(load_obj(&truncated), Err(GitError::CorruptStream)));
    let mut flipped = zlib(b"blob 6\0hello\n");
    let last = flipped.len() - 1;
    flipped[last] ^= 0xff;
    assert!(matches!(load_obj(&flipped), Err(GitError::CorruptStream)));
}

#[test]
fn loading_bad_header_is_malformed() {
    let file = zlib(b"blob 7\0hello\n");
    assert!(matches!(load_obj(&file), Err(GitError::MalformedHeader)));
    let file = zlib(b"note 1\0x");
    assert!(matches!(load_obj(&file), Err(GitError::UnknownObjectKind)));
}

#[test]
fn written_object_reads_back() {
    let (address, encoded) = Blob::new(b"hello\n".to_vec()).hash();
    let plan = repo().plan_write(&address, &encoded).unwrap();
    let o = load_obj(&plan.data).unwrap();
    assert!(o.obj_type() == Type::Blob);
    assert_eq!(o.to_string().unwrap(), "hello\n");
}
