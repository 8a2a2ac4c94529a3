use kairos::kernel::memory::paging::PageFlags;
use kairos::kernel::task;
use kairos::kernel::task::{Loaded, TaskTable};
use kairos::kernel::user;
use kairos::kernel::user::{Clear, CopyIn, Patch, Program, Seg, USER_BASE, USER_STACK_TOP};

fn put(b: &mut Vec<u8>, at: usize, bytes: &[u8]) {
    b[at..at + bytes.len()].copy_from_slice(bytes);
}

/// An image with a header page, a text segment and a data segment, and one
/// relocation section with three entries.
fn image() -> Vec<u8> {
    let mut b = vec![0u8; 0x400];
    put(&mut b, 0, &[0x7f, 0x45, 0x4c, 0x46, 2]);
    put(&mut b, 24, &(USER_BASE + 0x1234).to_le_bytes());
    put(&mut b, 32, &64u64.to_le_bytes());
    put(&mut b, 40, &0x200u64.to_le_bytes());
    put(&mut b, 54, &56u16.to_le_bytes());
    put(&mut b, 56, &4u16.to_le_bytes());
    put(&mut b, 58, &64u16.to_le_bytes());
    put(&mut b, 60, &2u16.to_le_bytes());
    let headers: [(u32, u32, u64, u64, u64, u64); 4] = [
        (1, 4, 0, 0, 0x100, 0x100),
        (1, 5, 0x100, USER_BASE + 0x1100, 0x80, 0x80),
        (6, 4, 0, USER_BASE, 1, 1),
        (1, 6, 0x180, USER_BASE + 0x3ff0, 0x40, 0x1020),
    ];
    for (i, (kind, flags, offset, vaddr, filesz, memsz)) in headers.iter().enumerate() {
        let at = 64 + 56 * i;
        put(&mut b, at, &kind.to_le_bytes());
        put(&mut b, at + 4, &flags.to_le_bytes());
        put(&mut b, at + 8, &offset.to_le_bytes());
        put(&mut b, at + 16, &vaddr.to_le_bytes());
        put(&mut b, at + 32, &filesz.to_le_bytes());
        put(&mut b, at + 40, &memsz.to_le_bytes());
    }
    put(&mut b, 0x240 + 4, &4u32.to_le_bytes());
    put(&mut b, 0x240 + 24, &0x300u64.to_le_bytes());
    put(&mut b, 0x240 + 32, &72u64.to_le_bytes());
    let entries: [(u64, u64, u64); 3] = [
        (USER_BASE + 0x1110, 8, 0xAAAA),
        (USER_BASE + 0x9000, 8, 0xBBBB),
        (USER_BASE + 0x4000, 0x5_0000_0008, 0xCCCC),
    ];
    for (i, (slot, info, addend)) in entries.iter().enumerate() {
        put(&mut b, 0x300 + 24 * i, &slot.to_le_bytes());
        put(&mut b, 0x308 + 24 * i, &info.to_le_bytes());
        put(&mut b, 0x310 + 24 * i, &addend.to_le_bytes());
    }
    b
}

fn programs() -> Vec<Program> {
    vec![
        Program { name: "hello", image: image() },
        Program { name: "broken", image: vec![1, 2, 3] },
    ]
}

#[test]
fn segments_are_parsed() {
    let b = image();
    let (entry, segs) = user::load_segments(&b).unwrap();
    assert_eq!(entry, USER_BASE + 0x1234);
    assert_eq!(segs.len(), 3);
    assert_eq!(
        segs[1],
        Seg {
            vaddr: USER_BASE + 0x1100,
            memsz: 0x80,
            filesz: 0x80,
            offset: 0x100,
            writable: false,
            executable: true,
        }
    );
    assert!(segs[2].writable && !segs[2].executable);
}

#[test]
fn other_files_are_not_parsed() {
    let mut b = image();
    b[4] = 1;
    assert!(user::load_segments(&b).is_none());
    b[4] = 2;
    b[0] = 0;
    assert!(user::load_segments(&b).is_none());
    assert!(user::load_segments(&image()[..63]).is_none());
    // Headers beyond the end of the file end the list.
    let short = &image()[..64 + 56 * 2];
    assert_eq!(user::load_segments(short).unwrap().1.len(), 2);
    let mut far = image();
    put(&mut far, 32, &u64::MAX.to_le_bytes());
    assert_eq!(user::load_segments(&far).unwrap().1.len(), 0);
}

#[test]
fn segments_are_mapped_page_by_page() {
    let b = image();
    let (_, segs) = user::load_segments(&b).unwrap();
    // The header page takes up no memory.
    assert!(user::can_load(&segs[0]));
    assert_eq!(user::map_segment(&segs[0], &b, false), None);
    let data = user::map_segment(&segs[2], &b, false).unwrap();
    // 0x3ff0 .. 0x5010 touches three pages; the first starts at 0x3000.
    assert_eq!(data.first, USER_BASE + 0x3000);
    assert_eq!(data.pages, 3);
    assert_eq!(data.flags, PageFlags { writable: true, user: true, no_execute: true });
    assert_eq!(
        data.copy,
        Ok(Some(CopyIn { from: 0x180, to: USER_BASE + 0x3ff0, len: 0x40 }))
    );
    assert_eq!(data.clear, Some(Clear { at: USER_BASE + 0x4030, len: 0xfe0 }));
    assert_eq!(user::segment_job(&data).pages(), 3);
    let text = user::map_segment(&segs[1], &b, false).unwrap();
    assert_eq!((text.first, text.pages), (USER_BASE + 0x1000, 1));
    assert!(!text.flags.no_execute);
    assert_eq!(text.clear, None);
    // What is loaded already is not loaded again.
    assert_eq!(user::map_segment(&segs[1], &b, true), None);
}

#[test]
fn only_pure_text_is_tightened() {
    let b = image();
    let (_, segs) = user::load_segments(&b).unwrap();
    let t = user::tighten_segment(&segs[1]).unwrap();
    assert_eq!((t.first, t.pages), (USER_BASE + 0x1000, 1));
    assert_eq!(t.flags, PageFlags { writable: false, user: true, no_execute: false });
    assert_eq!(user::tighten_segment(&segs[0]), None);
    assert_eq!(user::tighten_segment(&segs[2]), None);
}

#[test]
fn segments_outside_the_address_space_are_refused() {
    let seg = Seg {
        vaddr: 0x7FFF_FFFF_F000,
        memsz: 0x1000,
        filesz: 0,
        offset: 0,
        writable: true,
        executable: false,
    };
    assert!(user::can_load(&seg));
    assert!(!user::can_load(&Seg { memsz: 0x1001, ..seg }));
    assert!(!user::can_load(&Seg { vaddr: 0x8000_0000_0000, ..seg }));
    assert!(user::can_load(&Seg { vaddr: 0xFFFF_8000_0000_0000, ..seg }));
    assert!(!user::can_load(&Seg { vaddr: u64::MAX - 10, memsz: 100, ..seg }));
    // A file whose data starts behind its end cannot be copied.
    let lost = Seg { filesz: 8, offset: 100, ..seg };
    assert_eq!(user::map_segment(&lost, &[0; 64], false).unwrap().copy, Err(()));
}

#[test]
fn relocations_patch_only_segments() {
    let b = image();
    let (_, segs) = user::load_segments(&b).unwrap();
    let patches = user::apply_relocations(&b, &segs);
    assert_eq!(
        patches,
        vec![
            Patch { at: USER_BASE + 0x1110, value: 0xAAAA },
            Patch { at: USER_BASE + 0x4000, value: 0xCCCC },
        ]
    );
    assert!(user::apply_relocations(&b, &[]).is_empty());
    assert!(user::apply_relocations(&b[..10], &segs).is_empty());
}

#[test]
fn programs_are_found_by_name() {
    let p = programs();
    assert_eq!(user::find_program(&p, b"broken"), Some(1));
    assert_eq!(user::find_program(&p, b"hell"), None);
    for name in ["hello", "echo_server", "echo_client", "counter", "deadline"] {
        assert_eq!(user::program_name(name), Some(name));
    }
    assert_eq!(
        user::program_names(),
        ["hello", "echo_server", "echo_client", "counter", "deadline"]
    );
    let table = user::program_table(vec![1], vec![2], vec![3], vec![4], vec![5]);
    for (i, name) in user::program_names().iter().enumerate() {
        assert_eq!(user::find_program(&table, name.as_bytes()), Some(i));
        assert_eq!(user::program_bytes(&table, name), Some(&[i as u8 + 1][..]));
    }
    for name in ["", "hell", "hello ", "Hello", "broken", "shell"] {
        assert_eq!(user::program_name(name), None);
    }
    assert_eq!(user::program_bytes(&p, "broken"), Some(&[1u8, 2, 3][..]));
    assert_eq!(user::program_bytes(&p, "none"), None);
}

#[test]
fn loading_plans_everything() {
    let p = programs();
    let plan = user::load_user_program(&p, b"hello").unwrap();
    assert_eq!(plan.program.name, "hello");
    assert_eq!(plan.program.entry, USER_BASE + 0x1234);
    assert_eq!(plan.program.stack_top, USER_STACK_TOP);
    assert_eq!(plan.segs.len(), 3);
    assert_eq!(plan.patches.len(), 2);
    assert!(user::load_user_program(&p, b"broken").is_err());
    assert!(user::load_user_program(&p, b"missing").is_err());
    assert_eq!(user::map_user_stack(false).unwrap().pages(), 1024);
    assert!(user::map_user_stack(true).is_none());
}

#[test]
fn frame_windows_follow_each_other() {
    let mut cursor = user::USER_FRAME_WINDOW;
    assert_eq!(user::next_frame_window(&mut cursor, 3), user::USER_FRAME_WINDOW);
    assert_eq!(user::next_frame_window(&mut cursor, 1), user::USER_FRAME_WINDOW + 3 * 4096);
    assert_eq!(cursor, user::USER_FRAME_WINDOW + 4 * 4096);
}

#[test]
fn deadline_demo_spawns_two() {
    let mut tasks = TaskTable::new();
    task::init(&mut tasks);
    let image = Loaded { name: "deadline", entry: USER_BASE, stack_top: USER_STACK_TOP };
    let (a, b) =
        user::spawn_deadline_demo(&mut tasks, Ok(image), Ok(image), 0x10000, 0x20000);
    assert_eq!(a.unwrap().id, 1);
    assert_eq!(b.unwrap().id, 2);
    assert!(task::is_user_task(&tasks, 1) && task::is_user_task(&tasks, 2));
    assert_eq!(task::name_of(&tasks, 2), "deadline");
    assert!(user::spawn_deadline_demo(&mut tasks, Err(()), Err(()), 0, 0).0.is_err());
}

#[test]
fn loader_self_test_reports() {
    let (ok, lines) = user::run_tests(&programs());
    assert!(!ok);
    assert_eq!(lines, vec!["user: hello: entry=0x1000001234 OK", "user: broken: bad ELF"]);
}
