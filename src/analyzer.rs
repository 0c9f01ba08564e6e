//! Finding the process that runs a given executable, and listing the named symbols of
//! an executable image.
use vstd::prelude::*;
use crate::symbols::{ResolveError, SymbolEntry, elf_symbols_of, symbol_table, symbols_view};

verus! {

/// `needle` occurs in `hay`.
pub open spec fn occurs_in(needle: Seq<char>, hay: Seq<char>) -> bool {
    exists|i: int| 0 <= i <= hay.len() - needle.len() && #[trigger] hay.subrange(i, i + needle.len()) == needle
}

/// Relies on str::contains: whether `needle` occurs in `hay`.
#[verifier::external_body]
fn str_contains(hay: &str, needle: &str) -> (r: bool)
    ensures
        r == occurs_in(needle@, hay@),
{
    hay.contains(needle)
}

/// A running process: its id and the path of its executable.
pub struct ProcessInfo {
    pub pid: i32,
    pub exe_path: String,
}

/// The first process, in the order given, whose executable path contains `target_exe`.
pub open spec fn first_match(procs: Seq<ProcessInfo>, target_exe: Seq<char>) -> Option<int> {
    if exists|i: int| 0 <= i < procs.len() && occurs_in(target_exe, procs[i].exe_path@) {
        Some(
            choose|i: int|
                0 <= i < procs.len() && occurs_in(target_exe, procs[i].exe_path@) && forall|j: int|
                    0 <= j < i ==> !occurs_in(target_exe, (#[trigger] procs[j]).exe_path@),
        )
    } else {
        None
    }
}

/// Why an analysis could not start.
pub enum AnalyzeError {
    /// No running process runs the executable.
    ProcessNotFound,
}

/// The named symbols of a symbol table, in table order.
pub open spec fn named_only(syms: Seq<(Option<Seq<char>>, u64)>) -> Seq<(Option<Seq<char>>, u64)>
    decreases syms.len(),
{
    if syms.len() == 0 {
        syms
    } else if syms.last().0 is Some {
        named_only(syms.drop_last()).push(syms.last())
    } else {
        named_only(syms.drop_last())
    }
}

/// One executable and the process that runs it.
pub struct Analyzer {
    pid: i32,
    binary_path: String,
}

impl Analyzer {
    /// The process that runs the executable.
    pub closed spec fn pid_of(&self) -> i32 {
        self.pid
    }

    /// The executable.
    pub closed spec fn binary_path_of(&self) -> Seq<char> {
        self.binary_path@
    }

    /// The id of the first process, in the order given, whose executable path contains
    /// `target_exe`.
    pub fn discover_process_id(processes: &Vec<ProcessInfo>, target_exe: &str) -> (r: Option<i32>)
        ensures
            match first_match(processes@, target_exe@) {
                Some(i) => r == Some(processes@[i].pid),
                None => r is None,
            },
    {
        let mut i: usize = 0;
        while i < processes.len()
            invariant
                i <= processes@.len(),
                forall|j: int| 0 <= j < i ==> !occurs_in(target_exe@, (#[trigger] processes@[j]).exe_path@),
            decreases processes@.len() - i,
        {
            if str_contains(processes[i].exe_path.as_str(), target_exe) {
                let ghost procs = processes@;
                let ghost c = choose|c: int|
                    0 <= c < procs.len() && occurs_in(target_exe@, procs[c].exe_path@) && forall|j: int|
                        0 <= j < c ==> !occurs_in(target_exe@, (#[trigger] procs[j]).exe_path@);
                assert(0 <= i < procs.len() && occurs_in(target_exe@, procs[i as int].exe_path@) && forall|j: int|
                    0 <= j < i ==> !occurs_in(target_exe@, (#[trigger] procs[j]).exe_path@));
                assert(c == i) by {
                    if c < i {
                        assert(!occurs_in(target_exe@, procs[c].exe_path@));
                    } else if c > i {
                        assert(!occurs_in(target_exe@, procs[i as int].exe_path@));
                    }
                }
                return Some(processes[i].pid);
            }
            i = i + 1;
        }
        None
    }

    /// The analysis of `target_exe`, run by the first of `processes` whose executable
    /// path contains it.
    pub fn new(target_exe: &str, processes: &Vec<ProcessInfo>) -> (r: Result<Analyzer, AnalyzeError>)
        ensures
            match first_match(processes@, target_exe@) {
                Some(i) => r matches Ok(a) && a.pid_of() == processes@[i].pid && a.binary_path_of()
                    == target_exe@,
                None => r is Err,
            },
    {
        match Analyzer::discover_process_id(processes, target_exe) {
            Some(pid) => Ok(Analyzer { pid, binary_path: String::from_str(target_exe) }),
            None => Err(AnalyzeError::ProcessNotFound),
        }
    }

    /// The process id.
    pub fn pid(&self) -> (r: i32)
        ensures
            r == self.pid_of(),
    {
        self.pid
    }

    /// The path of the executable.
    pub fn binary_path(&self) -> (r: &str)
        ensures
            r@ == self.binary_path_of(),
    {
        self.binary_path.as_str()
    }

    /// The named symbols of `image`, the executable's contents, in table order.
    pub fn analyze(&self, image: &[u8]) -> (r: Result<Vec<SymbolEntry>, ResolveError>)
        ensures
            r is Err <==> elf_symbols_of(image@) is None,
            r matches Ok(v) ==> symbols_view(v@) == named_only(elf_symbols_of(image@)->Some_0),
    {
        let all = match symbol_table(self.binary_path.as_str(), image) {
            Ok(v) => v,
            Err(e) => {
                return Err(e);
            },
        };
        let ghost sv = symbols_view(all@);
        let mut named: Vec<SymbolEntry> = Vec::new();
        let mut i: usize = 0;
        while i < all.len()
            invariant
                i <= all@.len(),
                sv == symbols_view(all@),
                symbols_view(named@) == named_only(sv.subrange(0, i as int)),
            decreases all@.len() - i,
        {
            let ghost before = symbols_view(named@);
            assert(sv.subrange(0, i + 1).drop_last() == sv.subrange(0, i as int));
            assert(sv.subrange(0, i + 1).last() == all@[i as int]@);
            if all[i].name.is_some() {
                let entry = SymbolEntry { name: all[i].name.clone(), value: all[i].value };
                named.push(entry);
                assert(symbols_view(named@) == before.push(entry@));
            }
            i = i + 1;
        }
        assert(sv.subrange(0, all@.len() as int) == sv);
        Ok(named)
    }
}

} // verus!
