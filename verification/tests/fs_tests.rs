use lib::fs::{empty_entry, split_parent, DirEntry, FileSystem, FsError, MAX_FILE_SIZE};

fn booted() -> FileSystem {
    let mut fs = FileSystem::new();
    fs.init();
    fs
}

fn read_all(fs: &FileSystem, path: &str) -> Result<Vec<u8>, FsError> {
    let mut buf = vec![0u8; MAX_FILE_SIZE];
    let n = fs.read_file(path, &mut buf)?;
    buf.truncate(n);
    Ok(buf)
}

fn listing(fs: &FileSystem, path: &str) -> Result<Vec<(String, bool, usize)>, FsError> {
    let mut entries: Vec<DirEntry> = (0..32).map(|_| empty_entry()).collect();
    let n = fs.list_dir(path, &mut entries)?;
    Ok(entries[..n]
        .iter()
        .map(|e| (String::from_utf8(e.name[..e.name_len].to_vec()).unwrap(), e.is_dir, e.size))
        .collect())
}

fn cwd(fs: &FileSystem) -> String {
    let mut buf = [0u8; 256];
    let n = fs.cwd_path(&mut buf);
    String::from_utf8(buf[..n].to_vec()).unwrap()
}

#[test]
fn init_lays_out_home_tmp_and_readme() {
    let fs = booted();
    assert!(fs.path_exists("/"));
    assert!(fs.is_directory("/home"));
    assert!(fs.is_directory("/tmp"));
    assert!(!fs.is_directory("/readme.txt"));
    assert_eq!(read_all(&fs, "/readme.txt").unwrap(), b"Welcome to RxV6.\nType 'help' for commands.\n".to_vec());
    assert_eq!(
        listing(&fs, "/").unwrap(),
        vec![
            ("home".to_string(), true, 0),
            ("tmp".to_string(), true, 0),
            ("readme.txt".to_string(), false, 43),
        ]
    );
    assert_eq!(cwd(&fs), "/");
}

#[test]
fn blank_table_has_no_root_directory() {
    let fs = FileSystem::new();
    assert!(!fs.is_directory("/"));
    assert_eq!(listing(&fs, "/"), Err(FsError::NotADir));
}

#[test]
fn read_after_write_gives_back_the_data() {
    let mut fs = booted();
    fs.create_file("/tmp/notes").unwrap();
    fs.write_file("/tmp/notes", b"hello world").unwrap();
    assert_eq!(read_all(&fs, "/tmp/notes").unwrap(), b"hello world".to_vec());
    let mut small = [9u8; 5];
    assert_eq!(fs.read_file("/tmp/notes", &mut small), Ok(5));
    assert_eq!(&small, b"hello");
    let mut big = [7u8; 16];
    assert_eq!(fs.read_file("/tmp/notes", &mut big), Ok(11));
    assert_eq!(&big[..11], b"hello world");
    assert_eq!(&big[11..], &[7u8; 5]);
}

#[test]
fn write_is_cut_to_the_file_size_limit() {
    let mut fs = booted();
    fs.create_file("/big").unwrap();
    let data = vec![b'x'; 5000];
    fs.write_file("/big", &data).unwrap();
    assert_eq!(read_all(&fs, "/big").unwrap().len(), 4096);
    fs.write_file("/big", b"ab").unwrap();
    assert_eq!(read_all(&fs, "/big").unwrap(), b"ab".to_vec());
}

#[test]
fn created_file_is_found_and_empty() {
    let mut fs = booted();
    assert!(!fs.path_exists("/home/a.txt"));
    assert_eq!(fs.create_file("/home/a.txt"), Ok(()));
    assert!(fs.path_exists("/home/a.txt"));
    assert_eq!(read_all(&fs, "/home/a.txt").unwrap(), Vec::<u8>::new());
    assert_eq!(fs.create_dir("/home/d"), Ok(()));
    assert!(fs.is_directory("/home/d"));
    assert_eq!(listing(&fs, "/home/d").unwrap(), vec![]);
}

#[test]
fn create_errors() {
    let mut fs = booted();
    assert_eq!(fs.create_file("/home"), Err(FsError::AlreadyExists));
    assert_eq!(fs.create_file("/readme.txt/x"), Err(FsError::NotADir));
    assert_eq!(fs.create_file("/nowhere/x"), Err(FsError::NotFound));
    assert_eq!(fs.create_file("/tmp/"), Err(FsError::InvalidPath));
    assert_eq!(fs.create_file(""), Err(FsError::InvalidPath));
    assert_eq!(fs.create_file("/tmp/aaaaaaaaaaaaaaaaaaaaaaaaaaaaa"), Err(FsError::NameTooLong));
    assert_eq!(fs.create_dir("/tmp/aaaaaaaaaaaaaaaaaaaaaaaaaaaa"), Ok(()));
    assert!(!fs.path_exists("/tmp/aaaaaaaaaaaaaaaaaaaaaaaaaaaaa"));
}

#[test]
fn a_directory_lists_at_most_sixteen_children() {
    let mut fs = booted();
    for i in 0..16 {
        assert_eq!(fs.create_file(&format!("/tmp/f{}", i)), Ok(()));
    }
    assert_eq!(fs.create_file("/tmp/f16"), Err(FsError::NoSpace));
    assert!(!fs.path_exists("/tmp/f16"));
    assert_eq!(listing(&fs, "/tmp").unwrap().len(), 16);
}

#[test]
fn the_table_runs_out_of_slots() {
    let mut fs = booted();
    let mut made = 0;
    let mut last = Ok(());
    'outer: for d in 0..20 {
        let dir = format!("/d{}", d);
        if fs.create_dir(&dir).is_err() {
            last = fs.create_dir(&dir);
            break;
        }
        made += 1;
        for f in 0..15 {
            let r = fs.create_file(&format!("{}/f{}", dir, f));
            if r.is_err() {
                last = r;
                break 'outer;
            }
            made += 1;
        }
    }
    assert_eq!(last, Err(FsError::NoSpace));
    assert_eq!(made, 127 - 3);
}

#[test]
fn delete_rules() {
    let mut fs = booted();
    assert_eq!(fs.delete("/"), Err(FsError::InvalidPath));
    fs.create_file("/home/x").unwrap();
    assert_eq!(fs.delete("/home"), Err(FsError::DirNotEmpty));
    assert_eq!(fs.delete("/home/x"), Ok(()));
    assert!(!fs.path_exists("/home/x"));
    assert_eq!(fs.delete("/home"), Ok(()));
    assert!(!fs.path_exists("/home"));
    assert_eq!(fs.delete("/home"), Err(FsError::NotFound));
    assert_eq!(
        listing(&fs, "/").unwrap(),
        vec![("readme.txt".to_string(), false, 43), ("tmp".to_string(), true, 0)]
    );
}

#[test]
fn freed_slot_is_reused() {
    let mut fs = booted();
    fs.create_file("/a").unwrap();
    fs.delete("/a").unwrap();
    fs.create_dir("/b").unwrap();
    assert!(fs.is_directory("/b"));
    assert_eq!(listing(&fs, "/b").unwrap(), vec![]);
}

#[test]
fn read_and_write_errors() {
    let mut fs = booted();
    let mut buf = [0u8; 8];
    assert_eq!(fs.read_file("/home", &mut buf), Err(FsError::NotAFile));
    assert_eq!(fs.read_file("/missing", &mut buf), Err(FsError::NotFound));
    assert_eq!(fs.write_file("/tmp", b"x"), Err(FsError::NotAFile));
    assert_eq!(fs.write_file("/readme.txt/x", b"x"), Err(FsError::NotADir));
    assert_eq!(buf, [0u8; 8]);
}

#[test]
fn relative_paths_and_current_directory() {
    let mut fs = booted();
    assert_eq!(fs.set_cwd("/home"), Ok(()));
    assert_eq!(cwd(&fs), "/home");
    fs.create_dir("sub").unwrap();
    assert_eq!(fs.set_cwd("sub"), Ok(()));
    assert_eq!(cwd(&fs), "/home/sub");
    fs.create_file("f").unwrap();
    assert!(fs.path_exists("/home/sub/f"));
    assert!(fs.path_exists("./f"));
    assert!(fs.path_exists("../sub/./f"));
    assert!(fs.path_exists("//home//sub/f/"));
    assert_eq!(fs.set_cwd(".."), Ok(()));
    assert_eq!(cwd(&fs), "/home");
    assert_eq!(fs.set_cwd("../.."), Ok(()));
    assert_eq!(cwd(&fs), "/");
    assert_eq!(fs.set_cwd("/readme.txt"), Err(FsError::NotADir));
    assert_eq!(fs.set_cwd("/none"), Err(FsError::NotFound));
    assert_eq!(cwd(&fs), "/");
}

#[test]
fn a_file_cannot_be_entered() {
    let fs = booted();
    assert!(!fs.path_exists("/readme.txt/x"));
    assert!(fs.path_exists("/readme.txt/."));
    assert!(fs.path_exists("/readme.txt/.."));
}

#[test]
fn rename_moves_and_renames() {
    let mut fs = booted();
    fs.write_file("/readme.txt", b"r").unwrap();
    assert_eq!(fs.rename("/readme.txt", "/home/r.txt"), Ok(()));
    assert!(!fs.path_exists("/readme.txt"));
    assert_eq!(read_all(&fs, "/home/r.txt").unwrap(), b"r".to_vec());
    assert_eq!(fs.rename("/home/r.txt", "plain"), Ok(()));
    assert!(fs.path_exists("/plain"));
    assert_eq!(fs.rename("/", "/x"), Err(FsError::InvalidPath));
    assert_eq!(fs.rename("/plain", "/plain/x"), Err(FsError::NotADir));
    assert_eq!(fs.rename("/nothing", "/x"), Err(FsError::NotFound));
}

#[test]
fn rename_with_a_long_name_unlinks_the_node() {
    let mut fs = booted();
    fs.create_file("/tmp/a").unwrap();
    assert_eq!(fs.rename("/tmp/a", "/home/aaaaaaaaaaaaaaaaaaaaaaaaaaaaa"), Err(FsError::NameTooLong));
    assert!(!fs.path_exists("/tmp/a"));
    assert_eq!(listing(&fs, "/home").unwrap(), vec![]);
}

#[test]
fn cwd_path_is_cut_to_the_buffer() {
    let mut fs = booted();
    fs.set_cwd("/home").unwrap();
    let mut buf = [0u8; 3];
    assert_eq!(fs.cwd_path(&mut buf), 3);
    assert_eq!(&buf, b"/ho");
    let mut none: [u8; 0] = [];
    assert_eq!(fs.cwd_path(&mut none), 0);
}

#[test]
fn split_parent_cuts_at_the_last_slash() {
    assert_eq!(split_parent(b"/a/b/c"), (b"/a/b".to_vec(), b"c".to_vec()));
    assert_eq!(split_parent(b"/c"), (b"/".to_vec(), b"c".to_vec()));
    assert_eq!(split_parent(b"c"), (b"".to_vec(), b"c".to_vec()));
    assert_eq!(split_parent(b"a/"), (b"a".to_vec(), b"".to_vec()));
    assert_eq!(split_parent(b""), (b"".to_vec(), b"".to_vec()));
}

#[test]
fn error_messages() {
    assert_eq!(FsError::NotFound.message(), "not found");
    assert_eq!(FsError::NotADir.message(), "not a directory");
    assert_eq!(FsError::NotAFile.message(), "not a file");
    assert_eq!(FsError::AlreadyExists.message(), "already exists");
    assert_eq!(FsError::NoSpace.message(), "no space left");
    assert_eq!(FsError::NameTooLong.message(), "name too long");
    assert_eq!(FsError::DirNotEmpty.message(), "directory not empty");
    assert_eq!(FsError::InvalidPath.message(), "invalid path");
}

#[test]
fn listing_is_cut_to_the_entries_given() {
    let fs = booted();
    let mut entries: Vec<DirEntry> = (0..2).map(|_| empty_entry()).collect();
    assert_eq!(fs.list_dir("/", &mut entries), Ok(2));
    assert_eq!(&entries[1].name[..3], b"tmp");
    assert_eq!(entries[1].name[3], 0);
    assert_eq!(fs.list_dir("/readme.txt", &mut entries), Err(FsError::NotADir));
}

#[test]
fn deleted_current_directory() {
    let mut fs = booted();
    fs.set_cwd("/tmp").unwrap();
    fs.delete("/tmp").unwrap();
    assert_eq!(fs.create_file("x"), Err(FsError::NotADir));
    assert!(fs.path_exists(".."));
}

#[test]
fn a_node_renamed_into_the_current_directory_is_found_there() {
    let mut fs = booted();
    fs.set_cwd("/tmp").unwrap();
    assert_eq!(fs.rename("/readme.txt", "r"), Ok(()));
    assert!(fs.path_exists("r"));
    assert!(fs.path_exists("/tmp/r"));
    assert_eq!(read_all(&fs, "r").unwrap(), b"Welcome to RxV6.\nType 'help' for commands.\n".to_vec());
    assert_eq!(listing(&fs, ".").unwrap(), vec![("r".to_string(), false, 43)]);
}

#[test]
fn a_rename_onto_a_taken_name_keeps_both_entries() {
    let mut fs = booted();
    fs.create_file("/tmp/a").unwrap();
    fs.create_file("/tmp/b").unwrap();
    fs.write_file("/tmp/b", b"bee").unwrap();
    assert_eq!(fs.rename("/tmp/b", "/tmp/a"), Ok(()));
    assert_eq!(listing(&fs, "/tmp").unwrap(), vec![("a".to_string(), false, 0), ("a".to_string(), false, 3)]);
    assert_eq!(read_all(&fs, "/tmp/a").unwrap(), Vec::<u8>::new());
}

#[test]
fn the_working_directory_path_leads_back_to_it() {
    let mut fs = booted();
    fs.create_dir("/home/a").unwrap();
    fs.create_dir("/home/a/b").unwrap();
    fs.create_file("/home/a/b/marker").unwrap();
    fs.set_cwd("/home/a/b").unwrap();
    let p = cwd(&fs);
    assert_eq!(p, "/home/a/b");
    assert_eq!(listing(&fs, &p).unwrap(), listing(&fs, ".").unwrap());
    assert_eq!(listing(&fs, &p).unwrap(), vec![("marker".to_string(), false, 0)]);
}

#[test]
fn a_refused_rename_changes_nothing() {
    let mut fs = booted();
    let before = listing(&fs, "/").unwrap();
    assert_eq!(fs.rename("/", "/x"), Err(FsError::InvalidPath));
    assert_eq!(fs.rename("/none", "/x"), Err(FsError::NotFound));
    assert_eq!(fs.rename("/home", "/none/x"), Err(FsError::NotFound));
    assert_eq!(fs.rename("/home", "/readme.txt/x"), Err(FsError::NotADir));
    assert_eq!(listing(&fs, "/").unwrap(), before);
    assert!(fs.is_directory("/home"));
}

#[test]
fn file_and_directory_creation_decide_alike() {
    for path in ["/home", "/readme.txt/x", "/nowhere/x", "/tmp/", "", "/tmp/aaaaaaaaaaaaaaaaaaaaaaaaaaaaa", "/tmp/ok"] {
        let mut a = booted();
        let mut b = booted();
        assert_eq!(a.create_file(path), b.create_dir(path), "path {:?}", path);
    }
}

#[test]
fn a_late_refusal_leaves_every_listing_as_it_was() {
    let mut fs = booted();
    let root = listing(&fs, "/").unwrap();
    let tmp = listing(&fs, "/tmp").unwrap();
    assert_eq!(fs.create_dir("/tmp/aaaaaaaaaaaaaaaaaaaaaaaaaaaaa"), Err(FsError::NameTooLong));
    assert_eq!(listing(&fs, "/").unwrap(), root);
    assert_eq!(listing(&fs, "/tmp").unwrap(), tmp);
    assert_eq!(read_all(&fs, "/readme.txt").unwrap().len(), 43);
}

#[test]
fn create_then_delete_restores_the_listing() {
    let mut fs = booted();
    let before = listing(&fs, "/").unwrap();
    fs.create_dir("/new").unwrap();
    assert_eq!(fs.delete("/new"), Ok(()));
    assert_eq!(listing(&fs, "/").unwrap(), before);
    fs.create_file("/home/f").unwrap();
    assert_eq!(fs.delete("/home/f"), Ok(()));
    assert_eq!(listing(&fs, "/home").unwrap(), vec![]);
}
