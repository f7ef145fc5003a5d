use asset_manager::models::file_items::FileSystemItem;
use asset_manager::utils::file_finder::{DirEntry, FileEntry, FileFilter, ScanError};
use asset_manager::utils::tree_walk::{scan_directory_recursive, TreeEntry, TreeWalk, WalkStep};

fn dir(path: &str) -> TreeEntry {
    let name = path.rsplit('/').next().unwrap().to_string();
    TreeEntry::Directory(DirEntry { name, path: path.to_string() })
}

fn file(path: &str, is_text: bool) -> TreeEntry {
    let name = path.rsplit('/').next().unwrap().to_string();
    TreeEntry::File(FileEntry { name, path: path.to_string(), is_text })
}

fn svg(path: &str) -> FileSystemItem {
    let name = path.rsplit('/').next().unwrap().to_string();
    FileSystemItem::SvgFile { name, path: path.to_string() }
}

fn font(path: &str) -> FileSystemItem {
    let name = path.rsplit('/').next().unwrap().to_string();
    FileSystemItem::FontFile { name, path: path.to_string() }
}

fn expect_read(step: WalkStep, path: &str) -> TreeWalk {
    match step {
        WalkStep::Read { walk, path: asked } => {
            assert_eq!(asked, path);
            walk
        }
        WalkStep::Done(result) => panic!("the walk ended early with {:?}", result),
    }
}

#[test]
fn a_walk_begins_by_asking_for_the_root() {
    let walk = expect_read(scan_directory_recursive("/vault", FileFilter::Svg), "/vault");
    assert_eq!(walk.root, "/vault");
    assert!(walk.at_root);
    assert!(walk.pending.is_empty());
    assert!(walk.found.is_empty());
}

#[test]
fn an_unreadable_root_fails_the_walk() {
    let walk = expect_read(scan_directory_recursive("/missing", FileFilter::Svg), "/missing");
    let step = walk.answer(Err("No such file or directory".to_string()));
    assert_eq!(
        step,
        WalkStep::Done(Err(ScanError::DirectoryUnreadable {
            path: "/missing".to_string(),
            cause: "No such file or directory".to_string(),
        }))
    );
}

#[test]
fn an_empty_root_gives_an_empty_listing() {
    let walk = expect_read(scan_directory_recursive("/vault", FileFilter::Font), "/vault");
    assert_eq!(walk.answer(Ok(vec![])), WalkStep::Done(Ok(vec![])));
}

#[test]
fn three_levels_are_flattened_without_directories() {
    let walk = expect_read(scan_directory_recursive("/v", FileFilter::Svg), "/v");
    let step = walk.answer(Ok(vec![
        file("/v/top.svg", true),
        dir("/v/a"),
        file("/v/notes.txt", false),
        dir("/v/b"),
        file("/v/zz.svg", true),
    ]));
    let walk = expect_read(step, "/v/a");
    assert!(!walk.at_root);
    let step = walk.answer(Ok(vec![dir("/v/a/deep"), file("/v/a/mid.svg", true)]));
    let walk = expect_read(step, "/v/a/deep");
    let step = walk.answer(Ok(vec![file("/v/a/deep/low.svg", true), TreeEntry::Other]));
    let walk = expect_read(step, "/v/b");
    let step = walk.answer(Ok(vec![file("/v/b/broken.svg", false), file("/v/b/alpha.svg", true)]));
    assert_eq!(
        step,
        WalkStep::Done(Ok(vec![
            svg("/v/b/alpha.svg"),
            svg("/v/a/deep/low.svg"),
            svg("/v/a/mid.svg"),
            svg("/v/top.svg"),
            svg("/v/zz.svg"),
        ]))
    );
}

#[test]
fn files_of_the_same_name_keep_the_order_of_the_walk() {
    let walk = expect_read(scan_directory_recursive("/v", FileFilter::Svg), "/v");
    let step = walk.answer(Ok(vec![dir("/v/a"), file("/v/x.svg", true), dir("/v/b")]));
    let walk = expect_read(step, "/v/a");
    let step = walk.answer(Ok(vec![file("/v/a/x.svg", true)]));
    let walk = expect_read(step, "/v/b");
    let step = walk.answer(Ok(vec![file("/v/b/x.svg", true)]));
    assert_eq!(
        step,
        WalkStep::Done(Ok(vec![svg("/v/a/x.svg"), svg("/v/x.svg"), svg("/v/b/x.svg")]))
    );
}

#[test]
fn an_unreadable_directory_below_the_root_is_passed_over() {
    let walk = expect_read(scan_directory_recursive("/f", FileFilter::Font), "/f");
    let step = walk.answer(Ok(vec![dir("/f/locked"), file("/f/b.TTF", false), dir("/f/open")]));
    let walk = expect_read(step, "/f/locked");
    let step = walk.answer(Err("Permission denied".to_string()));
    let walk = expect_read(step, "/f/open");
    let step = walk.answer(Ok(vec![file("/f/open/a.woff2", false), file("/f/open/a.svg", true)]));
    assert_eq!(step, WalkStep::Done(Ok(vec![font("/f/open/a.woff2"), font("/f/b.TTF")])));
}

#[test]
fn a_walk_reads_each_directory_once() {
    let mut asked: Vec<String> = Vec::new();
    let mut step = scan_directory_recursive("/r", FileFilter::Svg);
    let result = loop {
        match step {
            WalkStep::Done(result) => break result,
            WalkStep::Read { walk, path } => {
                let listing = match path.as_str() {
                    "/r" => vec![dir("/r/1"), dir("/r/2"), file("/r/r.svg", true)],
                    "/r/1" => vec![dir("/r/1/1"), file("/r/1/a.svg", true)],
                    "/r/1/1" => vec![file("/r/1/1/b.svg", true)],
                    "/r/2" => vec![],
                    other => panic!("asked for {}", other),
                };
                asked.push(path);
                step = walk.answer(Ok(listing));
            }
        }
    };
    assert_eq!(asked, vec!["/r", "/r/1", "/r/1/1", "/r/2"]);
    assert_eq!(result, Ok(vec![svg("/r/1/a.svg"), svg("/r/1/1/b.svg"), svg("/r/r.svg")]));
}

#[test]
fn an_entry_that_could_not_be_read_is_passed_over() {
    let walk = expect_read(scan_directory_recursive("/v", FileFilter::Svg), "/v");
    let step = walk.answer(Ok(vec![
        TreeEntry::Unreadable,
        file("/v/b.svg", true),
        TreeEntry::Unreadable,
        dir("/v/d"),
        TreeEntry::Other,
        file("/v/a.svg", true),
    ]));
    let walk = expect_read(step, "/v/d");
    let step = walk.answer(Ok(vec![TreeEntry::Unreadable, file("/v/d/c.svg", true)]));
    assert_eq!(
        step,
        WalkStep::Done(Ok(vec![svg("/v/a.svg"), svg("/v/b.svg"), svg("/v/d/c.svg")]))
    );
}

#[test]
fn a_root_that_holds_only_what_cannot_be_read_gives_an_empty_listing() {
    let walk = expect_read(scan_directory_recursive("/v", FileFilter::Font), "/v");
    let step = walk.answer(Ok(vec![TreeEntry::Unreadable, TreeEntry::Unreadable]));
    assert_eq!(step, WalkStep::Done(Ok(vec![])));
}
