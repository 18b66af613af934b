use staticpedia::blocking::Block;
use staticpedia::inline::Term;
use staticpedia::location::Fragment;
use staticpedia::location::InternalPath;
use staticpedia::page::Page;
use staticpedia::site::Directory;
use staticpedia::site::Node;
use staticpedia::site::TreeError;

fn path(segments: &[&str]) -> InternalPath {
    let mut fragments = Vec::new();
    for s in segments {
        fragments.push(Fragment::new((*s).to_string()));
    }
    InternalPath { fragments }
}

fn page(title: &str) -> Page {
    Page {
        title: title.to_string(),
        body: vec![Block::Paragraph(vec![Term::Text("x".to_string())])],
        children: Vec::new(),
    }
}

#[test]
fn insert_then_get_returns_the_node() {
    let mut root = Directory::empty();
    let p = path(&["a", "b"]);
    let node = Node::Page(page("T"));
    let expected = Node::Page(page("T"));
    assert_eq!(root.insert(&p, node), Ok(()));
    let got = root.get(&p);
    assert_eq!(got, Some(&expected));
}

#[test]
fn get_on_never_inserted_path_is_not_found() {
    let mut root = Directory::empty();
    assert_eq!(root.get(&path(&["nowhere"])), None);
    assert_eq!(root.insert(&path(&["a", "b"]), Node::Page(page("T"))), Ok(()));
    assert_eq!(root.get(&path(&["a", "c"])), None);
    assert_eq!(root.get(&path(&["b"])), None);
    assert_eq!(root.get(&path(&["a", "b", "c"])), None);
}

#[test]
fn intermediate_directories_are_created() {
    let mut root = Directory::empty();
    assert_eq!(root.insert(&path(&["a", "b", "c"]), Node::Page(page("T"))), Ok(()));
    match root.get(&path(&["a"])) {
        Some(Node::Directory(_)) => {},
        other => panic!("expected a directory at `a`, found {:?}", other),
    }
    match root.get(&path(&["a", "b"])) {
        Some(Node::Directory(_)) => {},
        other => panic!("expected a directory at `a/b`, found {:?}", other),
    }
}

#[test]
fn second_insert_at_occupied_path_fails_without_overwrite() {
    let mut root = Directory::empty();
    let p = path(&["a"]);
    assert_eq!(root.insert(&p, Node::Page(page("first"))), Ok(()));
    let mut before = Directory::empty();
    assert_eq!(before.insert(&p, Node::Page(page("first"))), Ok(()));
    assert_eq!(root.insert(&p, Node::Page(page("second"))), Err(TreeError::Occupied));
    assert_eq!(root.get(&p), Some(&Node::Page(page("first"))));
    assert_eq!(root, before);
}

#[test]
fn occupied_directory_slot_is_also_refused() {
    let mut root = Directory::empty();
    assert_eq!(root.insert(&path(&["a", "b"]), Node::Page(page("T"))), Ok(()));
    assert_eq!(root.insert(&path(&["a"]), Node::Page(page("U"))), Err(TreeError::Occupied));
}

#[test]
fn insert_at_root_is_refused() {
    let mut root = Directory::empty();
    assert_eq!(root.insert(&path(&[]), Node::Page(page("T"))), Err(TreeError::InsertAtRoot));
}

#[test]
fn insert_through_a_page_is_refused() {
    let mut root = Directory::empty();
    assert_eq!(root.insert(&path(&["a"]), Node::Page(page("T"))), Ok(()));
    assert_eq!(
        root.insert(&path(&["a", "b"]), Node::Page(page("U"))),
        Err(TreeError::PageInPath)
    );
    assert_eq!(root.get(&path(&["a"])), Some(&Node::Page(page("T"))));
}

#[test]
fn tree_error_messages() {
    assert_eq!(TreeError::InsertAtRoot.message(), "cannot insert at root");
    assert_eq!(TreeError::Occupied.message(), "cannot insert if already occupied");
    assert_eq!(TreeError::PageInPath.message(), "must be a directory");
}

#[test]
fn pages_traversal_visits_every_page_depth_first() {
    let mut root = Directory::empty();
    assert_eq!(root.insert(&path(&["a"]), Node::Page(page("A"))), Ok(()));
    assert_eq!(root.insert(&path(&["d", "b"]), Node::Page(page("B"))), Ok(()));
    assert_eq!(root.insert(&path(&["d", "c"]), Node::Page(page("C"))), Ok(()));
    let pages = root.pages();
    assert_eq!(pages.len(), 3);
    assert_eq!(pages[0].0, path(&["a"]));
    assert_eq!(pages[0].1.title, "A");
    assert_eq!(pages[1].0, path(&["d", "b"]));
    assert_eq!(pages[1].1.title, "B");
    assert_eq!(pages[2].0, path(&["d", "c"]));
    assert_eq!(pages[2].1.title, "C");
}

#[test]
fn node_page_and_dir_accessors() {
    let n = Node::Page(page("T"));
    assert_eq!(n.page(), Some(page("T")));
    let n = Node::Page(page("T"));
    assert_eq!(n.dir(), None);
    let d = Node::Directory(Directory::empty());
    assert_eq!(d.page(), None);
}

#[test]
fn nodes_convert_from_pages_and_directories() {
    assert_eq!(Node::from(page("T")), Node::Page(page("T")));
    assert_eq!(Node::from(Directory::empty()), Node::Directory(Directory::empty()));
}

#[test]
fn fs_path_joins_fragments() {
    assert_eq!(path(&["a", "b", "c"]).to_fs_path(), "a/b/c");
    assert_eq!(path(&["solo"]).to_fs_path(), "solo");
    assert_eq!(path(&[]).to_fs_path(), "");
}
