use prism::files::list::{arrange, extension_of, hydrate, list, needed, Kind, Listing, Meta, Shallow, Sort};

/// A directory as it was read: its entries, and what a look at each gave.
struct Fixture {
    entries: Vec<Shallow>,
    metas: Vec<Option<Meta>>,
}

impl Fixture {
    fn new() -> Self {
        Fixture { entries: vec![], metas: vec![] }
    }

    fn add(mut self, name: &str, is_dir: bool, is_link: bool, meta: Option<Meta>) -> Self {
        self.entries.push(Shallow { name: name.to_string(), is_dir, is_link });
        self.metas.push(meta);
        self
    }

    fn file(self, name: &str, bytes: u64) -> Self {
        self.add(name, false, false, Some(Meta { is_dir: false, len: bytes, modified: Some(1_700_000_000) }))
    }

    fn subdir(self, name: &str) -> Self {
        self.add(name, true, false, Some(Meta { is_dir: true, len: 4096, modified: None }))
    }

    fn list(&self, offset: usize, limit: usize, sort: Sort) -> Listing {
        list(&self.entries, &self.metas, false, offset, limit, sort)
    }
}

#[test]
fn classifies_by_extension() {
    assert_eq!(Kind::from_extension("a.JPG"), Kind::Image);
    assert_eq!(Kind::from_extension("film.mkv"), Kind::Video);
    assert_eq!(Kind::from_extension("song.flac"), Kind::Audio);
    assert_eq!(Kind::from_extension("notes.md"), Kind::Text);
    assert_eq!(Kind::from_extension("doc.pdf"), Kind::Pdf);
    assert_eq!(Kind::from_extension("model.safetensors"), Kind::Other);
    assert_eq!(Kind::from_extension("no_extension"), Kind::Other);
}

#[test]
fn only_previewable_kinds_are_thumbnailable() {
    assert!(Kind::Image.thumbnailable());
    assert!(Kind::Video.thumbnailable());
    assert!(Kind::Pdf.thumbnailable());
    assert!(!Kind::Audio.thumbnailable());
    assert!(!Kind::Other.thumbnailable());
    assert!(!Kind::Dir.thumbnailable());
}

#[test]
fn directories_sort_before_files() {
    let f = Fixture::new().file("aaa.txt", 1).file("zzz.txt", 1).subdir("mmm");
    let l = f.list(0, 50, Sort::Name);
    assert_eq!(l.entries[0].name, "mmm");
    assert!(l.entries[0].is_dir);
}

#[test]
fn name_sort_is_case_insensitive() {
    let f = Fixture::new().file("Beta.txt", 1).file("alpha.txt", 1);
    let l = f.list(0, 50, Sort::Name);
    let names: Vec<_> = l.entries.iter().map(|e| e.name.as_str()).collect();
    assert_eq!(names, vec!["alpha.txt", "Beta.txt"]);
}

#[test]
fn paginates_and_reports_the_true_total() {
    let mut f = Fixture::new();
    for i in 0..25 {
        f = f.file(&format!("f{i:02}.txt"), 1);
    }
    let page = f.list(10, 5, Sort::Name);
    assert_eq!(page.entries.len(), 5);
    assert_eq!(page.total, 25, "total must count the directory, not the page");
    assert_eq!(page.offset, 10);
    assert_eq!(page.entries[0].name, "f10.txt");
}

#[test]
fn offset_beyond_the_end_yields_an_empty_page_not_an_error() {
    let f = Fixture::new().file("only.txt", 1);
    let l = f.list(500, 10, Sort::Name);
    assert!(l.entries.is_empty());
    assert_eq!(l.total, 1);
}

#[test]
fn reports_sizes_for_files_and_none_for_directories() {
    let f = Fixture::new().file("data.bin", 1234).subdir("adir");
    let l = f.list(0, 50, Sort::Name);
    let dir_entry = l.entries.iter().find(|e| e.name == "adir").unwrap();
    let file_entry = l.entries.iter().find(|e| e.name == "data.bin").unwrap();
    assert_eq!(dir_entry.size, None);
    assert_eq!(file_entry.size, Some(1234));
}

#[test]
fn size_sort_orders_largest_first() {
    let f = Fixture::new().file("small.bin", 10).file("big.bin", 5000).file("mid.bin", 500);
    let l = f.list(0, 50, Sort::Size);
    let names: Vec<_> = l.entries.iter().map(|e| e.name.as_str()).collect();
    assert_eq!(names, vec!["big.bin", "mid.bin", "small.bin"]);
}

#[test]
fn sort_declares_whether_it_costs_a_full_stat() {
    assert!(!Sort::Name.requires_full_stat());
    assert!(Sort::Size.requires_full_stat());
    assert!(Sort::Modified.requires_full_stat());
}

#[test]
fn empty_directory_lists_cleanly() {
    let f = Fixture::new();
    let l = f.list(0, 50, Sort::Name);
    assert_eq!(l.total, 0);
    assert!(!l.partial);
}

#[test]
fn marks_symlinks_and_survives_broken_ones() {
    let f = Fixture::new()
        .file("real.txt", 5)
        .add("good", false, true, Some(Meta { is_dir: false, len: 5, modified: None }))
        .add("broken", false, true, None);
    let l = f.list(0, 50, Sort::Name);
    let good = l.entries.iter().find(|e| e.name == "good").unwrap();
    let broken = l.entries.iter().find(|e| e.name == "broken").unwrap();
    assert!(good.is_link && good.size == Some(5));
    assert!(broken.is_link, "a broken link must still be listed");
    assert_eq!(broken.size, None, "and must not claim a size");
}

#[test]
fn only_the_page_is_looked_at_when_sorting_by_name() {
    let f = Fixture::new().file("b", 1).file("a", 1).subdir("z");
    assert_eq!(needed(&f.entries, 0, 2, Sort::Name), vec![2, 1]);
    assert_eq!(needed(&f.entries, 0, 2, Sort::Size).len(), 3);
    assert_eq!(arrange(&f.entries, &f.metas, Sort::Name), vec![2, 1, 0]);
}

#[test]
fn the_newest_come_first_when_sorting_by_time() {
    let at = |t: u64| Some(Meta { is_dir: false, len: 1, modified: Some(t) });
    let f = Fixture::new().add("old", false, false, at(10)).add("new", false, false, at(30)).add("mid", false, false, at(20));
    let l = f.list(0, 50, Sort::Modified);
    let names: Vec<_> = l.entries.iter().map(|e| e.name.as_str()).collect();
    assert_eq!(names, vec!["new", "mid", "old"]);
}

#[test]
fn letters_beyond_ascii_are_folded_too() {
    let f = Fixture::new().file("\u{c4}pfel", 1).file("\u{e4}mter", 1);
    let l = f.list(0, 50, Sort::Name);
    assert_eq!(l.entries[0].name, "\u{e4}mter");
}

#[test]
fn an_extension_is_what_follows_the_last_dot() {
    assert_eq!(extension_of("a.tar.GZ"), "gz");
    assert_eq!(extension_of(".hidden"), "hidden");
    assert_eq!(extension_of("none"), "");
}

#[test]
fn a_link_to_a_directory_is_a_directory() {
    let s = Shallow { name: "d".to_string(), is_dir: false, is_link: true };
    let e = hydrate(&s, Some(Meta { is_dir: true, len: 9, modified: Some(1) }));
    assert!(e.is_dir && e.is_link);
    assert_eq!(e.kind, Kind::Dir);
    assert_eq!(e.size, None);
}
