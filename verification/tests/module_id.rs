use swiftlight_compiler::middleend::concurrent::SourceLocation;
use swiftlight_compiler::module::{Import, ImportItem, ImportItems, ModuleId, ModuleRef, Symbol, Visibility};

fn syms(names: &[&str]) -> Vec<Symbol> {
    names.iter().map(|n| Symbol::intern(n)).collect()
}

#[test]
fn identifiers_are_written_out() {
    assert_eq!(ModuleId::from_absolute_path(syms(&["std", "io"])).to_string(), "::std::io");
    assert_eq!(ModuleId::from_relative_path(syms(&["sub"])).to_string(), "sub");
}

#[test]
fn parent_and_child_undo_each_other() {
    let id = ModuleId::from_absolute_path(syms(&["a", "b"]));
    let child = id.child(Symbol::intern("c"));
    assert_eq!(child.to_string(), "::a::b::c");
    assert!(child.parent().unwrap().same(&id));
    assert_eq!(child.last_segment().unwrap().as_str(), "c");
}

#[test]
fn empty_path_has_no_parent() {
    let id = ModuleId::from_absolute_path(vec![]);
    assert!(id.parent().is_none());
    assert!(id.last_segment().is_none());
}

#[test]
fn relative_against_absolute_base() {
    let base = ModuleId::from_absolute_path(syms(&["app", "net"]));
    let rel = ModuleId::from_relative_path(syms(&["http"]));
    let resolved = rel.resolve_relative(&base).ok().unwrap();
    assert_eq!(resolved.to_string(), "::app::net::http");
    let abs = ModuleId::from_absolute_path(syms(&["x"]));
    assert!(abs.resolve_relative(&base).ok().unwrap().same(&abs));
}

#[test]
fn relative_against_relative_is_refused() {
    let base = ModuleId::from_relative_path(syms(&["a"]));
    let rel = ModuleId::from_relative_path(syms(&["b"]));
    match rel.resolve_relative(&base) {
        Err(e) => assert_eq!(e.message(), "相対パスは絶対パスを基準にしてのみ解決できます".to_string()),
        Ok(_) => panic!("expected an error"),
    }
}

#[test]
fn file_path_identifiers() {
    let id = ModuleId::from_file_path("src/net/http.swl");
    assert_eq!(id.to_string(), "src/net/http.swl");
    assert_eq!(id.parent().unwrap().to_string(), "src/net");
    assert_eq!(id.last_segment().unwrap().as_str(), "http.swl");
    let dir = ModuleId::from_file_path("src/net");
    assert_eq!(dir.child(Symbol::intern("tcp")).to_string(), "src/net/tcp");
}

#[test]
fn relative_against_a_directory_path() {
    let base = ModuleId::from_file_path("no_such_dir_here/lib");
    let rel = ModuleId::from_relative_path(syms(&["a", "b"]));
    let resolved = rel.resolve_relative(&base).ok().unwrap();
    assert_eq!(resolved.to_string(), "no_such_dir_here/lib/a/b");
}

#[test]
fn imports_hold_what_they_bring_in() {
    let here = SourceLocation { file: "main.sl".to_string(), line: 3, column: 1 };
    let item = ImportItem {
        name: Symbol::intern("parse"),
        alias: Some(Symbol::intern("p")),
        visibility: Visibility::Private,
        location: here.clone(),
    };
    let import = Import {
        source: ModuleRef::Direct(ModuleId::Absolute(syms(&["std", "text"]))),
        items: ImportItems::Specific(vec![item]),
        visibility: Visibility::Public,
        alias: None,
        location: here,
    };
    match &import.items {
        ImportItems::Specific(items) => {
            assert_eq!(items.len(), 1);
            assert_eq!(items[0].name, Symbol::intern("parse"));
            assert_eq!(items[0].visibility, Visibility::Private);
        }
        ImportItems::All => panic!("expected specific items"),
    }
    assert!(matches!(import.source, ModuleRef::Direct(_)));
    assert_eq!(import.location.line, 3);
}
