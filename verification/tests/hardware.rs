use kairos::kernel::gdt;
use kairos::kernel::interrupts;
use kairos::kernel::interrupts::{
    CpuFrame, CpuState, FRAME_SIZE, OFFSET_ERR, OFFSET_R15, OFFSET_RBP, OFFSET_RIP, OFFSET_VEC,
};
use kairos::kernel::memory::PagingErrorKind;
use kairos::kernel::vga::{Color, ColorCode, BUFFER_HEIGHT, BUFFER_WIDTH};

#[test]
fn frame_layout_is_stable() {
    // The frame is used from assembly; fields must be in the pushed order.
    assert_eq!(OFFSET_R15, 0);
    assert_eq!(OFFSET_RBP, 14 * 8);
    assert_eq!(OFFSET_ERR, 15 * 8);
    assert_eq!(OFFSET_VEC, 16 * 8);
    assert_eq!(OFFSET_RIP, 17 * 8);
    assert_eq!(FRAME_SIZE, 22 * 8);
    let mut f = CpuFrame::zeroed();
    f.r15 = 1;
    f.rbp = 2;
    f.err = 3;
    f.vec = 4;
    f.rip = 5;
    let words = f.to_words();
    assert_eq!(words[OFFSET_R15 / 8], 1);
    assert_eq!(words[OFFSET_RBP / 8], 2);
    assert_eq!(words[OFFSET_ERR / 8], 3);
    assert_eq!(words[OFFSET_VEC / 8], 4);
    assert_eq!(words[OFFSET_RIP / 8], 5);
    assert_eq!(words.len() * 8, FRAME_SIZE);
}

#[test]
fn paging_error_display() {
    let e = PagingErrorKind::NotMapped;
    assert!(format!("{e:?}").len() > 0);
}

#[test]
fn width_heights_are_correct() {
    assert_eq!(BUFFER_WIDTH, 80);
    assert_eq!(BUFFER_HEIGHT, 25);
}

#[test]
fn color_code_packs() {
    let c = ColorCode::new(Color::Red, Color::Blue);
    assert_eq!(c.0, (Color::Blue as u8) << 4 | Color::Red as u8);
}

#[test]
fn frames_survive_their_words() {
    let mut w = [0u64; 22];
    for i in 0..22 {
        w[i] = i as u64 * 3 + 1;
    }
    let f = CpuFrame::from_words(&w);
    assert_eq!(f.to_words(), w);
    assert_eq!((f.r15, f.rax, f.user_ss), (1, 40, 64));
    // Only a frame that a syscall stored is rewound, by the two bytes of the
    // instruction.
    let mut g = f;
    g.rewind();
    assert_eq!(g, f);
    g.vec = 256;
    g.rewind();
    assert_eq!(g.rip, f.rip - 2);
    assert_eq!(CpuFrame { rip: f.rip, vec: f.vec, ..g }, f);
}

#[test]
fn selectors_follow_the_table() {
    assert_eq!(gdt::kernel_code(), 0x08);
    assert_eq!(gdt::kernel_data(), 0x10);
    assert_eq!(gdt::user_data(), 0x1B);
    assert_eq!(gdt::user_code(), 0x23);
    assert_eq!(gdt::task_state(), 0x28);
}

#[test]
fn timer_divides_its_frequency() {
    let w = interrupts::pit_init(1000);
    let list: Vec<(u16, u8)> = w.iter().map(|p| (p.port, p.value)).collect();
    // 1193182 / 1000 = 1193 = 0x4A9.
    assert_eq!(list, vec![(0x43, 0x36), (0x40, 0xA9), (0x40, 0x04)]);
    let fast = interrupts::pit_init(u64::MAX);
    assert_eq!((fast[1].value, fast[2].value), (2, 0));
    let all = interrupts::init_pic_and_timer(1000);
    assert_eq!(all.len(), interrupts::pic_remap().len() + 3);
    assert_eq!((all[0].port, all[0].value), (0x20, 0x11));
    let eoi = interrupts::pic_eoi();
    assert_eq!((eoi.port, eoi.value), (0x20, 0x20));
}

#[test]
fn exceptions_are_reported() {
    assert_eq!(interrupts::exception_name(14), "page fault");
    assert_eq!(interrupts::exception_name(15), "reserved");
    assert_eq!(interrupts::exception_name(40), "unknown");
    let mut f = CpuFrame::zeroed();
    f.vec = 14;
    f.err = 6;
    f.rip = 0xABC;
    f.cs = 8;
    let lines = interrupts::exception_report(&f, 0x1000);
    assert_eq!(lines[1], "KERNEL EXCEPTION (unhandled)");
    assert_eq!(lines[2], "  vector : 14");
    assert_eq!(lines[3], "  name   : page fault");
    assert_eq!(
        lines[4],
        "  rip    = 0x0000000000000abc, cs = 0x0008, rflags = 0x0000000000000000"
    );
    assert_eq!(lines[7], "  fault addr (cr2) = 0x0000000000001000");
    assert_eq!(lines[8], "  page fault: present=false write=true user=true");
    f.vec = 13;
    assert_eq!(interrupts::exception_report(&f, 0x1000).len(), 8);
}

#[test]
fn return_flag_is_mirrored() {
    let mut cpu = CpuState::new();
    interrupts::set_user_ret_flag(&mut cpu, true);
    assert!(cpu.user_ret);
    assert_eq!(cpu.gs.scratch1, 1);
    interrupts::set_user_ret_flag(&mut cpu, false);
    assert_eq!((cpu.user_ret, cpu.gs.scratch1), (false, 0));
}
