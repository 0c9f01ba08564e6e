use uprobe_tracer::symbols::{canonical_name, resolve_symbols, select_targets, strip_hash_suffix};
use uprobe_tracer::{FunctionInfo, SymbolEntry};

fn names(list: &[&str]) -> Vec<String> {
    list.iter().map(|s| s.to_string()).collect()
}

fn entry(name: &str, value: u64) -> SymbolEntry {
    SymbolEntry { name: Some(name.to_string()), value }
}

#[test]
fn requested_symbol_resolves_to_its_address() {
    let syms = vec![entry("foo", 0x1000), SymbolEntry { name: None, value: 0x10 }, entry("baz", 0x2000)];
    let r = resolve_symbols("/bin/app", &syms, &names(&["foo", "missing"]));
    assert_eq!(r.len(), 1);
    assert_eq!(r[0].binary_path, "/bin/app");
    assert_eq!(r[0].demangled_name, "foo");
    assert_eq!(r[0].mangled_name, "foo");
    assert_eq!(r[0].offset, 0x1000);
}

#[test]
fn canonicalizes_rust_hash_suffix() {
    assert_eq!(strip_hash_suffix("mod::helper::compute::h1a2b3c4d5e6f"), "mod::helper::compute");
    assert_eq!(
        canonical_name("_ZN3mod6helper7compute17h1a2b3c4d5e6f7a8bE"),
        "mod::helper::compute"
    );
    let syms = vec![entry("_ZN3mod6helper7compute17h1a2b3c4d5e6f7a8bE", 0x77)];
    let r = resolve_symbols("/bin/app", &syms, &names(&["mod::helper::compute"]));
    assert_eq!(r.len(), 1);
    assert_eq!(r[0].offset, 0x77);
}

#[test]
fn hash_suffix_needs_lowercase_hex_to_the_end() {
    assert_eq!(strip_hash_suffix("a::hello"), "a::hello");
    assert_eq!(strip_hash_suffix("a::h"), "a::h");
    assert_eq!(strip_hash_suffix("a::hABC"), "a::hABC");
    assert_eq!(strip_hash_suffix("a::h12::b"), "a::h12::b");
    assert_eq!(strip_hash_suffix("a::h12::h34"), "a::h12");
    assert_eq!(strip_hash_suffix("plain_c_function"), "plain_c_function");
    assert_eq!(canonical_name("test_function"), "test_function");
}

fn info(name: &str, offset: u64) -> FunctionInfo {
    FunctionInfo {
        binary_path: "/bin/app".to_string(),
        demangled_name: name.to_string(),
        mangled_name: format!("{}@{:x}", name, offset),
        offset,
    }
}

#[test]
fn selection_prefers_lowest_then_earliest() {
    let candidates = vec![info("f", 30), info("g", 5), info("f", 10), info("f", 10), info("h", 1)];
    let r = select_targets(&candidates, &names(&["f", "g", "f", "absent"]));
    assert_eq!(r.len(), 2);
    assert_eq!(r[0].demangled_name, "f");
    assert_eq!(r[0].offset, 10);
    assert_eq!(r[0].mangled_name, "f@a");
    assert_eq!(r[1].demangled_name, "g");
    assert_eq!(r[1].offset, 5);
}

#[test]
fn selection_of_nothing_is_empty() {
    let r = select_targets(&vec![], &names(&["f"]));
    assert!(r.is_empty());
    let r = select_targets(&vec![info("f", 1)], &vec![]);
    assert!(r.is_empty());
}
