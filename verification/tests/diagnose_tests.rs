use miri_the_world::diagnose::{diagnose, diagnose_transcript, strip_ansi};
use miri_the_world::model::{Cause, Crate, Status, Version};

fn ub(causes: Vec<(&str, Option<&str>)>) -> Status {
    Status::UB {
        cause: causes
            .into_iter()
            .map(|(k, s)| Cause { kind: k.to_string(), source_crate: s.map(|x| x.to_string()) })
            .collect(),
    }
}

#[test]
fn passing_transcript() {
    assert_eq!(diagnose_transcript("hello\nall tests passed\n"), Status::Passing);
}

#[test]
fn timeout_status() {
    let s = diagnose_transcript("building...\nCommand exited with non-zero status 124\n");
    assert_eq!(s, Status::Error("Timeout".to_string()));
}

#[test]
fn oom_status() {
    let s = diagnose_transcript("Command exited with non-zero status 255\n");
    assert_eq!(s, Status::Error("OOM".to_string()));
}

#[test]
fn generic_nonzero_status() {
    let s = diagnose_transcript("Command exited with non-zero status 1\n");
    assert_eq!(s, Status::Error(String::new()));
}

#[test]
fn ub_out_of_bounds_with_attribution() {
    let input = "error: Undefined Behavior: out-of-bounds pointer arithmetic\n        inside `foo` at /root/.cargo/registry/src/index.crates.io/bar-0.1.0/src/lib.rs:12\n";
    let s = diagnose_transcript(input);
    assert_eq!(s, ub(vec![("invalid pointer offset", Some("bar-0.1.0"))]));
}

#[test]
fn ub_without_backtrace_has_no_attribution() {
    let input = "error: Undefined Behavior: out-of-bounds pointer arithmetic\n";
    let s = diagnose_transcript(input);
    assert_eq!(s, ub(vec![("invalid pointer offset", None)]));
}

#[test]
fn attribution_stops_at_build_dir() {
    let input = "error: Undefined Behavior: out-of-bounds pointer arithmetic\n    inside `f` at /root/build/src/main.rs:1\n    inside `g` at /root/.cargo/registry/src/host/x-1.0.0/src/lib.rs:2\n";
    let s = diagnose_transcript(input);
    assert_eq!(s, ub(vec![("invalid pointer offset", None)]));
}

#[test]
fn asan_heap_use_after_free() {
    let s = diagnose_transcript("==77==ERROR: AddressSanitizer: heap-use-after-free on address\n");
    assert_eq!(s, ub(vec![("heap-use-after-free", None)]));
}

#[test]
fn asan_false_positive() {
    let input = "==1==ERROR: AddressSanitizer: stack-overflow\nWARNING: ASan is ignoring requested __asan_handle_no_return: stack type\n";
    let s = diagnose_transcript(input);
    assert_eq!(s, Status::Error("ASan false positive?".to_string()));
}

#[test]
fn asan_allocation_size() {
    let s = diagnose_transcript(
        "==9==ERROR: AddressSanitizer: requested allocation size 0xffff exceeds max\n",
    );
    assert_eq!(
        s,
        ub(vec![("requested allocation size exceeds maximum supported size", None)])
    );
}

#[test]
fn sigill_status() {
    let s = diagnose_transcript("thread panicked: SIGILL: illegal instruction\n");
    assert_eq!(s, ub(vec![("SIGILL debug assertion", None)]));
}

#[test]
fn leave_type_status() {
    let s = diagnose_transcript("attempted to leave type `core::mem::MaybeUninit<u8>`\n");
    assert_eq!(s, ub(vec![("uninit type which does not permit uninit", None)]));
}

#[test]
fn ub_rule_beats_timeout() {
    let input = "error: Undefined Behavior: encountered a null reference\nCommand exited with non-zero status 124\n";
    let s = diagnose_transcript(input);
    assert_eq!(s, ub(vec![("null reference", None)]));
}

#[test]
fn causes_are_sorted_and_deduplicated() {
    let input = "error: Undefined Behavior: encountered uninitialized memory\n\nerror: Undefined Behavior: Data race detected between threads\n\nerror: Undefined Behavior: Data race detected between threads\n";
    let s = diagnose_transcript(input);
    assert_eq!(s, ub(vec![("data race", None), ("uninitialized memory", None)]));
}

#[test]
fn borrow_stack_block_refinement() {
    let input = "error: Undefined Behavior: trying to retag from <wildcard> for SharedReadWrite\nhelp: this tag was invalidated when another write happened\n\nlater unrelated text\n";
    let s = diagnose_transcript(input);
    assert_eq!(s, ub(vec![("SB-invalidation", None)]));
}

#[test]
fn untagged_retag_is_int_to_ptr() {
    let input = "error: Undefined Behavior: retag of <untagged> pointer\n";
    let s = diagnose_transcript(input);
    assert_eq!(s, ub(vec![("int-to-ptr cast", None)]));
}

#[test]
fn type_validation_generic_kind() {
    let input = "error: Undefined Behavior: type validation failed: encountered 0x11, but expected a boolean\n";
    let s = diagnose_transcript(input);
    assert_eq!(
        s,
        ub(vec![("type validation failed: encountered 0x11, but expected a boolean", None)])
    );
}

#[test]
fn ansi_codes_are_stripped_before_matching() {
    let input = "\x1b[31merror\x1b[0m: Undefined \x1b(BBehavior: out-of-bounds access\n";
    let s = diagnose_transcript(input);
    assert_eq!(s, ub(vec![("invalid pointer offset", None)]));
}

#[test]
fn strip_removes_recognized_sequences_only() {
    let raw: Vec<char> = "a\x1b[31mb\x1b(Bc\x1bd".chars().collect();
    let stripped: Vec<char> = strip_ansi(&raw);
    let s: String = stripped.into_iter().collect();
    assert_eq!(s, "abc\u{1b}d");
}

#[test]
fn diagnosis_is_pure_in_the_stripped_text() {
    let input = "\x1b[1mCommand exited with non-zero status 124\x1b[0m\n";
    let raw: Vec<char> = input.chars().collect();
    let stripped: String = strip_ansi(&raw).into_iter().collect();
    assert_eq!(diagnose_transcript(&stripped), diagnose_transcript(input));
}

#[test]
fn diagnose_updates_only_the_status() {
    let mut krate = Crate {
        name: "foo".to_string(),
        version: Version::parse("1.0.0"),
        recent_downloads: Some(7),
        status: Status::Unknown,
    };
    diagnose(&mut krate, "fine\n");
    assert_eq!(krate.status, Status::Passing);
    assert_eq!(krate.name, "foo");
    assert_eq!(krate.recent_downloads, Some(7));
}

#[test]
fn type_validation_without_encountered_falls_through() {
    let input = "error: Undefined Behavior: type validation failed somewhere\n";
    let s = diagnose_transcript(input);
    assert_eq!(s, ub(vec![("type validation failed somewhere", None)]));
}

#[test]
fn protected_deallocation_kind() {
    let input = "error: Undefined Behavior: deallocating while item is protected\n";
    let s = diagnose_transcript(input);
    assert_eq!(s, ub(vec![("deallocation conflict with dereferenceable", None)]));
}

#[test]
fn shared_read_only_write_kind() {
    let input = "error: Undefined Behavior: attempting a write access using tag, but that tag only grants SharedReadOnly permission\n";
    let s = diagnose_transcript(input);
    assert_eq!(s, ub(vec![("SB-write-via-&", None)]));
}

#[test]
fn relative_backtrace_path_stops_attribution() {
    let input = "error: Undefined Behavior: out-of-bounds access\n    inside `f` at src/main.rs:1\n    inside `g` at /root/.cargo/registry/src/host/x-1.0.0/src/lib.rs:2\n";
    let s = diagnose_transcript(input);
    assert_eq!(s, ub(vec![("invalid pointer offset", None)]));
}

#[test]
fn rustc_frames_are_skipped_during_attribution() {
    let input = "error: Undefined Behavior: out-of-bounds access\n    inside `f` at /rustc/abc/library/core/src/lib.rs:1\n    inside `g` at /home/user/.cargo/registry/src/host/pkg-2.0.0/src/lib.rs:2\n";
    let s = diagnose_transcript(input);
    assert_eq!(s, ub(vec![("invalid pointer offset", Some("pkg-2.0.0"))]));
}
