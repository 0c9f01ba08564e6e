use uprobe_tracer::{Analyzer, OffsetTracker, ProcessInfo, ResolveError};

fn push_u16(b: &mut Vec<u8>, v: u16) {
    b.extend_from_slice(&v.to_le_bytes());
}

fn push_u32(b: &mut Vec<u8>, v: u32) {
    b.extend_from_slice(&v.to_le_bytes());
}

fn push_u64(b: &mut Vec<u8>, v: u64) {
    b.extend_from_slice(&v.to_le_bytes());
}

/// A little-endian ELF64 image whose symbol table holds the given (name, value) pairs.
fn elf_with_symbols(symbols: &[(&str, u64)]) -> Vec<u8> {
    let mut strtab: Vec<u8> = vec![0];
    let mut name_offsets = Vec::new();
    for (name, _) in symbols {
        name_offsets.push(strtab.len() as u32);
        strtab.extend_from_slice(name.as_bytes());
        strtab.push(0);
    }
    let mut symtab: Vec<u8> = vec![0; 24];
    for (i, (_, value)) in symbols.iter().enumerate() {
        push_u32(&mut symtab, name_offsets[i]);
        symtab.push(0x12);
        symtab.push(0);
        push_u16(&mut symtab, 1);
        push_u64(&mut symtab, *value);
        push_u64(&mut symtab, 16);
    }
    let symtab_off = 64u64;
    let strtab_off = symtab_off + symtab.len() as u64;
    let mut shoff = strtab_off + strtab.len() as u64;
    shoff = (shoff + 7) / 8 * 8;

    let mut img: Vec<u8> = vec![0x7f, b'E', b'L', b'F', 2, 1, 1, 0, 0, 0, 0, 0, 0, 0, 0, 0];
    push_u16(&mut img, 2);
    push_u16(&mut img, 62);
    push_u32(&mut img, 1);
    push_u64(&mut img, 0);
    push_u64(&mut img, 0);
    push_u64(&mut img, shoff);
    push_u32(&mut img, 0);
    push_u16(&mut img, 64);
    push_u16(&mut img, 56);
    push_u16(&mut img, 0);
    push_u16(&mut img, 64);
    push_u16(&mut img, 3);
    push_u16(&mut img, 0);
    assert_eq!(img.len(), 64);
    img.extend_from_slice(&symtab);
    img.extend_from_slice(&strtab);
    while (img.len() as u64) < shoff {
        img.push(0);
    }
    img.extend_from_slice(&[0u8; 64]);
    let section = |img: &mut Vec<u8>, kind: u32, off: u64, size: u64, link: u32, entsize: u64| {
        push_u32(img, 0);
        push_u32(img, kind);
        push_u64(img, 0);
        push_u64(img, 0);
        push_u64(img, off);
        push_u64(img, size);
        push_u32(img, link);
        push_u32(img, 1);
        push_u64(img, 8);
        push_u64(img, entsize);
    };
    section(&mut img, 2, symtab_off, symtab.len() as u64, 2, 24);
    section(&mut img, 3, strtab_off, strtab.len() as u64, 0, 0);
    img
}

fn names(list: &[&str]) -> Vec<String> {
    list.iter().map(|s| s.to_string()).collect()
}

#[test]
fn resolves_symbol_offset_from_image() {
    let image = elf_with_symbols(&[("foo", 0x1000), ("other", 0x2000)]);
    let mut tracker = OffsetTracker::new();
    assert!(tracker.add_binary("/bin/app", &image, &names(&["foo", "bar"])).is_ok());
    assert_eq!(tracker.get_offset("/bin/app", "foo"), Some(0x1000));
    assert_eq!(tracker.get_mangled_name("/bin/app", "foo"), Some("foo"));
    assert_eq!(tracker.get_offset("/bin/app", "bar"), None);
    assert_eq!(tracker.get_offset("/bin/app", "other"), None);
    assert_eq!(tracker.get_offset("/bin/else", "foo"), None);
}

#[test]
fn resolves_mangled_symbol_by_canonical_name() {
    let mangled = "_ZN3mod6helper7compute17h1a2b3c4d5e6f7a8bE";
    let image = elf_with_symbols(&[(mangled, 0x4010)]);
    let mut tracker = OffsetTracker::new();
    assert!(tracker.add_binary("/bin/app", &image, &names(&["mod::helper::compute"])).is_ok());
    assert_eq!(tracker.get_offset("/bin/app", "mod::helper::compute"), Some(0x4010));
    assert_eq!(tracker.get_mangled_name("/bin/app", "mod::helper::compute"), Some(mangled));
}

#[test]
fn malformed_image_is_an_error_not_an_absence() {
    let mut tracker = OffsetTracker::new();
    let r = tracker.add_binary("/bin/junk", &[1, 2, 3, 4, 5], &names(&["foo"]));
    match r {
        Err(ResolveError::Malformed { binary_path }) => assert_eq!(binary_path, "/bin/junk"),
        Ok(()) => panic!("a malformed image must not resolve"),
    }
    assert_eq!(tracker.get_offset("/bin/junk", "foo"), None);
    assert_eq!(tracker.targets().len(), 0);
}

#[test]
fn adding_a_binary_again_replaces_its_entries_only() {
    let first = elf_with_symbols(&[("foo", 0x1000), ("bar", 0x1100)]);
    let second = elf_with_symbols(&[("foo", 0x3000)]);
    let other = elf_with_symbols(&[("foo", 0x5000)]);
    let mut tracker = OffsetTracker::new();
    assert!(tracker.add_binary("/bin/a", &first, &names(&["foo", "bar"])).is_ok());
    assert!(tracker.add_binary("/bin/b", &other, &names(&["foo"])).is_ok());
    assert!(tracker.add_binary("/bin/a", &second, &names(&["foo", "bar"])).is_ok());
    assert_eq!(tracker.get_offset("/bin/a", "foo"), Some(0x3000));
    assert_eq!(tracker.get_offset("/bin/a", "bar"), None);
    assert_eq!(tracker.get_offset("/bin/b", "foo"), Some(0x5000));
    assert_eq!(tracker.targets().len(), 2);
}

#[test]
fn duplicate_canonical_names_pick_lowest_offset() {
    let image = elf_with_symbols(&[
        ("_ZN4util5parse17h0000000000000001E", 0x9000),
        ("_ZN4util5parse17h0000000000000002E", 0x7000),
        ("_ZN4util5parse17h0000000000000003E", 0x8000),
    ]);
    let mut tracker = OffsetTracker::new();
    assert!(tracker.add_binary("/bin/app", &image, &names(&["util::parse"])).is_ok());
    assert_eq!(tracker.get_offset("/bin/app", "util::parse"), Some(0x7000));
    assert_eq!(
        tracker.get_mangled_name("/bin/app", "util::parse"),
        Some("_ZN4util5parse17h0000000000000002E")
    );
}

#[test]
fn analyzer_lists_named_symbols_of_its_process() {
    let procs = vec![
        ProcessInfo { pid: 10, exe_path: "/usr/bin/bash".to_string() },
        ProcessInfo { pid: 42, exe_path: "/opt/srv/server".to_string() },
        ProcessInfo { pid: 43, exe_path: "/opt/srv/server".to_string() },
    ];
    let analyzer = match Analyzer::new("srv/server", &procs) {
        Ok(a) => a,
        Err(_) => panic!("the process runs the executable"),
    };
    assert_eq!(analyzer.pid(), 42);
    assert_eq!(analyzer.binary_path(), "srv/server");
    let image = elf_with_symbols(&[("main", 0x400), ("helper", 0x500)]);
    let syms = match analyzer.analyze(&image) {
        Ok(s) => s,
        Err(_) => panic!("the image parses"),
    };
    let listed: Vec<(String, u64)> = syms.iter().map(|s| (s.name.clone().unwrap(), s.value)).collect();
    assert!(listed.contains(&("main".to_string(), 0x400)));
    assert!(listed.contains(&("helper".to_string(), 0x500)));
    assert!(syms.iter().all(|s| s.name.is_some()));
}

#[test]
fn analyzer_without_matching_process_fails() {
    let procs = vec![ProcessInfo { pid: 10, exe_path: "/usr/bin/bash".to_string() }];
    assert!(Analyzer::new("server", &procs).is_err());
    assert_eq!(Analyzer::discover_process_id(&procs, "bash"), Some(10));
    assert_eq!(Analyzer::discover_process_id(&procs, "zsh"), None);
}
