use cs110l::debugger::Breakpoint;
use cs110l::inferior::{
    after_single_step, align_addr_to_word, at_breakpoint, breakpoint_hit, describe_location,
    location_text, patch_word, shorten_path, splice_byte, Status, PATH_PATTERN, PATH_ROOT,
    SIGTRAP, TRAP_INSTRUCTION,
};
use std::collections::HashMap;

const WORD: usize = std::mem::size_of::<usize>();

#[test]
fn constants() {
    assert_eq!(SIGTRAP, 5);
    assert_eq!(TRAP_INSTRUCTION, 0xcc);
    assert_eq!(PATH_PATTERN, "(.*deet/)");
    assert_eq!(PATH_ROOT, "/deet/");
}

#[test]
fn aligned_addresses_stay() {
    assert_eq!(align_addr_to_word(0), 0);
    assert_eq!(align_addr_to_word(WORD), WORD);
    assert_eq!(align_addr_to_word(0x4005b8), 0x4005b8);
}

#[test]
fn addresses_round_down_to_the_word() {
    assert_eq!(align_addr_to_word(1), 0);
    assert_eq!(align_addr_to_word(WORD - 1), 0);
    assert_eq!(align_addr_to_word(WORD + 1), WORD);
    assert_eq!(align_addr_to_word(0x4005bb), 0x4005b8);
    assert_eq!(align_addr_to_word(usize::MAX), usize::MAX - (WORD - 1));
}

#[test]
fn alignment_agrees_with_masking() {
    for addr in [0usize, 1, 7, 8, 9, 15, 16, 1023, 0x7fff_fff1, usize::MAX - 8, usize::MAX] {
        assert_eq!(align_addr_to_word(addr), addr & (-(WORD as isize) as usize));
    }
}

#[test]
fn splice_replaces_one_byte() {
    assert_eq!(splice_byte(0x1122334455667788, 0, 0xcc), (0x88, 0x11223344556677cc));
    assert_eq!(splice_byte(0x1122334455667788, 1, 0xcc), (0x77, 0x112233445566cc88));
    assert_eq!(splice_byte(0x1122334455667788, 3, 0xcc), (0x55, 0x11223344cc667788));
    assert_eq!(splice_byte(0x1122334455667788, 7, 0xcc), (0x11, 0xcc22334455667788));
}

#[test]
fn splice_edge_values() {
    assert_eq!(splice_byte(0, 4, 0), (0, 0));
    assert_eq!(splice_byte(u64::MAX, 4, 0), (0xff, 0xffff_ff00_ffff_ffff));
    assert_eq!(splice_byte(0, 7, 0xff), (0, 0xff00_0000_0000_0000));
    assert_eq!(splice_byte(u64::MAX, 0, 0xff), (0xff, u64::MAX));
}

#[test]
fn splicing_back_restores_the_word() {
    let word = 0x0123_4567_89ab_cdefu64;
    for off in 0..8 {
        let (orig, patched) = splice_byte(word, off, TRAP_INSTRUCTION);
        let (trap, restored) = splice_byte(patched, off, orig);
        assert_eq!(trap, TRAP_INSTRUCTION);
        assert_eq!(restored, word);
    }
}

#[test]
fn patch_word_picks_the_byte_by_address() {
    let word = 0x1122334455667788u64;
    assert_eq!(patch_word(word, 0x1000, 0xcc), (0x88, 0x11223344556677cc));
    assert_eq!(patch_word(word, 0x1001, 0xcc), (0x77, 0x112233445566cc88));
    assert_eq!(patch_word(word, 0x1003, 0xcc), (0x55, 0x11223344cc667788));
    if WORD == 8 {
        assert_eq!(patch_word(word, 0x1007, 0xcc), (0x11, 0xcc22334455667788));
        assert_eq!(patch_word(word, 0x1008, 0xcc), (0x88, 0x11223344556677cc));
    }
}

#[test]
fn status_ended() {
    assert!(!Status::Stopped(SIGTRAP, 0x4005b8).has_ended());
    assert!(Status::Exited(0).has_ended());
    assert!(Status::Exited(1).has_ended());
    assert!(Status::Signaled(9).has_ended());
}

#[test]
fn a_trap_after_a_step_lets_the_process_run_on() {
    assert_eq!(after_single_step(Status::Stopped(SIGTRAP, 0x10)), None);
}

#[test]
fn anything_else_after_a_step_is_reported() {
    assert_eq!(after_single_step(Status::Stopped(11, 0x10)), Some(Status::Stopped(11, 0x10)));
    assert_eq!(after_single_step(Status::Exited(3)), Some(Status::Exited(3)));
    assert_eq!(after_single_step(Status::Signaled(9)), Some(Status::Signaled(9)));
    assert_eq!(after_single_step(Status::Signaled(SIGTRAP)), Some(Status::Signaled(SIGTRAP)));
    assert_eq!(after_single_step(Status::Exited(SIGTRAP)), Some(Status::Exited(SIGTRAP)));
}

#[test]
fn breakpoints_are_found_by_address() {
    let mut breakpoints: HashMap<usize, Breakpoint> = HashMap::new();
    breakpoints.insert(0x4005b8, Breakpoint { addr: 0x4005b8, inst: 0x55 });
    assert!(at_breakpoint(&breakpoints, 0x4005b8));
    assert!(!at_breakpoint(&breakpoints, 0x4005b9));
    assert_eq!(breakpoint_hit(&breakpoints, 0x4005b9), Some(Breakpoint { addr: 0x4005b8, inst: 0x55 }));
    assert_eq!(breakpoint_hit(&breakpoints, 0x4005b8), None);
    assert_eq!(breakpoint_hit(&breakpoints, 1), None);
    assert_eq!(breakpoint_hit(&HashMap::new(), 0x4005b9), None);
}

#[test]
fn paths_are_cut_at_the_project() {
    assert_eq!(shorten_path("/home/user/deet/samples/segfault.c:5"), "/deet/samples/segfault.c:5");
    assert_eq!(shorten_path("deet/main.c"), "/deet/main.c");
    assert_eq!(shorten_path("/a/deet/b/deet/c.c:1"), "/deet/c.c:1");
}

#[test]
fn other_paths_stay() {
    assert_eq!(shorten_path("/usr/src/libc/start.c:3"), "/usr/src/libc/start.c:3");
    assert_eq!(shorten_path(""), "");
    assert_eq!(shorten_path("deet"), "deet");
}

#[test]
fn paths_are_cut_line_by_line() {
    assert_eq!(shorten_path("/x/deet/a.c\n/y/deet/b.c"), "/deet/a.c\n/deet/b.c");
}

#[test]
fn location_text_has_the_position_in_brackets() {
    assert_eq!(location_text("main", "/deet/samples/segfault.c:5"), "main (/deet/samples/segfault.c:5)");
    assert_eq!(location_text("", ""), " ()");
}

#[test]
fn a_location_needs_both_parts() {
    assert_eq!(
        describe_location(Some("/home/user/deet/samples/segfault.c:5"), Some("func2")),
        Some(("func2 (/deet/samples/segfault.c:5)".to_string(), "func2".to_string()))
    );
    assert_eq!(describe_location(None, Some("main")), None);
    assert_eq!(describe_location(Some("/deet/a.c:1"), None), None);
    assert_eq!(describe_location(None, None), None);
}
