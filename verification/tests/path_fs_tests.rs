use chim_compiler::stdlib::fs;
use chim_compiler::stdlib::path::{current_dir, Path};

#[test]
fn normalises_separators() {
    assert_eq!(Path::new("a\\b//c///d".to_string()).to_string(), "a/b/c/d");
    assert_eq!(Path::new("//x".to_string()).as_str(), "/x");
}

#[test]
fn file_name_extension_stem() {
    let p = Path::new("/home/user/archive.tar.gz".to_string());
    assert_eq!(p.file_name(), Some("archive.tar.gz".to_string()));
    assert_eq!(p.extension(), Some("gz".to_string()));
    assert_eq!(p.stem(), Some("archive.tar".to_string()));
    let hidden = Path::new(".bashrc".to_string());
    assert_eq!(hidden.extension(), None);
    assert_eq!(hidden.stem(), Some("".to_string()));
    assert_eq!(Path::new("dir/".to_string()).file_name(), Some("dir".to_string()));
    assert_eq!(Path::new("/".to_string()).file_name(), None);
    assert_eq!(Path::new("name.".to_string()).extension(), None);
}

#[test]
fn parent_paths() {
    assert_eq!(Path::new("/a/b/c".to_string()).parent().unwrap().to_string(), "a/b");
    assert_eq!(Path::new("file".to_string()).parent().unwrap().to_string(), ".");
    assert!(Path::new("/file".to_string()).parent().is_none());
}

#[test]
fn absolute_and_join() {
    assert!(Path::new("/x".to_string()).is_absolute());
    assert!(Path::new("C:/x".to_string()).is_absolute());
    assert!(Path::new("x/y".to_string()).is_relative());
    let a = Path::new("a".to_string());
    let b = Path::new("b".to_string());
    assert_eq!(a.join(&b).to_string(), "a/b");
    assert_eq!(Path::new("a/".to_string()).join(&b).to_string(), "a/b");
    assert_eq!(Path::new("".to_string()).join(&b).to_string(), "b");
    assert_eq!(a.join(&Path::new("".to_string())).to_string(), "a");
    assert_eq!(Path::new("dir/report.txt".to_string()).with_extension("md").to_string(), "report.md");
}

#[test]
fn metadata_from_text() {
    let f = Path::new("notes.txt".to_string());
    assert!(f.is_file());
    assert!(!f.is_dir());
    assert!(f.path_exists());
    assert!(Path::new("dir/".to_string()).is_dir());
    assert!(current_dir().is_dir());
    assert!(!Path::new("README".to_string()).is_file());
    assert_eq!(f.canonicalize().unwrap().to_string(), "notes.txt");
}

#[test]
fn simulated_file_system() {
    let p = Path::new("data.bin".to_string());
    assert_eq!(fs::read_to_string(&p).unwrap(), "");
    assert!(fs::write_string(&p, "x".to_string()).is_ok());
    assert!(fs::read_dir(&p).unwrap().is_empty());
    let m = fs::metadata(&p).unwrap();
    assert!(m.is_file());
    assert_eq!(m.len(), 0);
    assert!(fs::copy(&p, &Path::new("b.bin".to_string())).is_ok());
    assert!(fs::path_exists(&p));
    let mut opts = fs::OpenOptionsBuilder::new();
    opts.read(true).write(true).create(true);
    assert!(opts.read && opts.write && opts.create && !opts.append);
    let mut f = opts.open(&p).unwrap();
    assert_eq!(f.path().to_string(), "data.bin");
    assert_eq!(f.read_to_string().unwrap(), "");
}
