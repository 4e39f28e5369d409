use chip8::cpu::{DISPLAY_HEIGHT, DISPLAY_SIZE, DISPLAY_WIDTH, FONT_START, PROGRAM_START};
use chip8::Cpu;

fn image(words: &[u16]) -> Vec<u8> {
    let mut bytes = Vec::new();
    for w in words {
        bytes.push((w >> 8) as u8);
        bytes.push((w & 0xFF) as u8);
    }
    bytes
}

fn machine(words: &[u16]) -> Cpu {
    Cpu::new(&image(words))
}

fn run(cpu: &mut Cpu, steps: usize) {
    for _ in 0..steps {
        assert!(cpu.can_cycle());
        cpu.step(false, 0);
    }
}

fn lit(cpu: &Cpu, col: usize, row: usize) -> bool {
    cpu.display()[col + DISPLAY_WIDTH * row]
}

#[test]
fn new_loads_fonts_and_program() {
    let cpu = machine(&[0x1234]);
    assert_eq!(cpu.program_counter(), 0x200);
    assert_eq!(cpu.memory_at(FONT_START), 0xF0);
    assert_eq!(cpu.memory_at(FONT_START + 5), 0x20);
    assert_eq!(cpu.memory_at(FONT_START + 79), 0x80);
    assert_eq!(cpu.memory_at(0x200), 0x12);
    assert_eq!(cpu.memory_at(0x201), 0x34);
    assert_eq!(cpu.memory_at(0x202), 0);
    assert_eq!(cpu.index_register(), 0);
    assert_eq!(cpu.stack_depth(), 0);
    assert!(!cpu.beep());
    assert!(!cpu.display_modified());
    assert!(cpu.display().iter().all(|p| !*p));
}

#[test]
fn new_accepts_image_filling_memory() {
    let rom = vec![0xAB; 4096 - PROGRAM_START as usize];
    let cpu = Cpu::new(&rom);
    assert_eq!(cpu.memory_at(4095), 0xAB);
}

#[test]
fn load_then_add_immediate() {
    let mut cpu = machine(&[0x6A05, 0x7A03]);
    run(&mut cpu, 2);
    assert_eq!(cpu.register(0xA), 8);
    assert_eq!(cpu.register(0xF), 0);
    assert_eq!(cpu.program_counter(), 0x204);
}

#[test]
fn add_immediate_wraps_without_flag() {
    let mut cpu = machine(&[0x6FFF, 0x60FE, 0x7003]);
    run(&mut cpu, 3);
    assert_eq!(cpu.register(0), 1);
    assert_eq!(cpu.register(0xF), 0xFF);
}

#[test]
fn add_registers_with_carry() {
    let mut cpu = machine(&[0x6AFF, 0x6B02, 0x8AB4]);
    run(&mut cpu, 3);
    assert_eq!(cpu.register(0xA), 1);
    assert_eq!(cpu.register(0xF), 1);
}

#[test]
fn add_registers_without_carry() {
    let mut cpu = machine(&[0x6F07, 0x6A80, 0x6B7F, 0x8AB4]);
    run(&mut cpu, 4);
    assert_eq!(cpu.register(0xA), 255);
    assert_eq!(cpu.register(0xF), 0);
}

#[test]
fn sub_registers_no_borrow() {
    let mut cpu = machine(&[0x6105, 0x6203, 0x8125]);
    run(&mut cpu, 3);
    assert_eq!(cpu.register(1), 2);
    assert_eq!(cpu.register(0xF), 1);
}

#[test]
fn sub_registers_equal_values_no_borrow() {
    let mut cpu = machine(&[0x6105, 0x6205, 0x8125]);
    run(&mut cpu, 3);
    assert_eq!(cpu.register(1), 0);
    assert_eq!(cpu.register(0xF), 1);
}

#[test]
fn sub_registers_with_borrow() {
    let mut cpu = machine(&[0x6103, 0x6205, 0x8125]);
    run(&mut cpu, 3);
    assert_eq!(cpu.register(1), 254);
    assert_eq!(cpu.register(0xF), 0);
}

#[test]
fn subn_registers() {
    let mut cpu = machine(&[0x6103, 0x6205, 0x8127, 0x6310, 0x6420, 0x8347]);
    run(&mut cpu, 3);
    assert_eq!(cpu.register(1), 2);
    assert_eq!(cpu.register(0xF), 1);
    run(&mut cpu, 3);
    assert_eq!(cpu.register(3), 0x10);
    assert_eq!(cpu.register(0xF), 1);
    let mut cpu = machine(&[0x6105, 0x6203, 0x8127]);
    run(&mut cpu, 3);
    assert_eq!(cpu.register(1), 254);
    assert_eq!(cpu.register(0xF), 0);
}

#[test]
fn shift_right_keeps_low_bit() {
    let mut cpu = machine(&[0x6305, 0x8306]);
    run(&mut cpu, 2);
    assert_eq!(cpu.register(3), 2);
    assert_eq!(cpu.register(0xF), 1);
    let mut cpu = machine(&[0x6304, 0x8306]);
    run(&mut cpu, 2);
    assert_eq!(cpu.register(3), 2);
    assert_eq!(cpu.register(0xF), 0);
}

#[test]
fn shift_left_keeps_high_bit() {
    let mut cpu = machine(&[0x6381, 0x830E]);
    run(&mut cpu, 2);
    assert_eq!(cpu.register(3), 0x02);
    assert_eq!(cpu.register(0xF), 1);
    let mut cpu = machine(&[0x6341, 0x830E]);
    run(&mut cpu, 2);
    assert_eq!(cpu.register(3), 0x82);
    assert_eq!(cpu.register(0xF), 0);
}

#[test]
fn flag_wins_when_destination_is_vf() {
    let mut cpu = machine(&[0x6FFF, 0x6E03, 0x8FE4]);
    run(&mut cpu, 3);
    assert_eq!(cpu.register(0xF), 1);
}

#[test]
fn bitwise_register_ops() {
    let mut cpu = machine(&[0x610C, 0x620A, 0x8121, 0x630C, 0x8322, 0x640C, 0x8423, 0x8520]);
    run(&mut cpu, 8);
    assert_eq!(cpu.register(1), 0x0E);
    assert_eq!(cpu.register(3), 0x08);
    assert_eq!(cpu.register(4), 0x06);
    assert_eq!(cpu.register(5), 0x0A);
}

#[test]
fn clear_screen_blanks_display() {
    let mut cpu = machine(&[0xF029, 0xD015, 0x00E0]);
    run(&mut cpu, 2);
    assert!(cpu.display().iter().any(|p| *p));
    run(&mut cpu, 1);
    let display = cpu.display();
    assert_eq!(display.len(), DISPLAY_WIDTH * DISPLAY_HEIGHT);
    assert_eq!(display.len(), DISPLAY_SIZE);
    assert!(display.iter().all(|p| !*p));
    assert!(cpu.display_modified());
}

#[test]
fn draw_twice_restores_display() {
    let mut cpu = machine(&[0x6005, 0x6107, 0xF029, 0xD015, 0xD015]);
    run(&mut cpu, 4);
    assert_eq!(cpu.register(0xF), 0);
    assert!(lit(&cpu, 5, 7));
    assert!(lit(&cpu, 8, 7));
    assert!(!lit(&cpu, 9, 7));
    assert!(!lit(&cpu, 6, 8));
    run(&mut cpu, 1);
    assert_eq!(cpu.register(0xF), 1);
    assert!(cpu.display().iter().all(|p| !*p));
}

#[test]
fn draw_without_overlap_reports_no_collision() {
    let mut cpu = machine(&[0x6000, 0x6100, 0xF029, 0xD015, 0x6010, 0xD015]);
    run(&mut cpu, 6);
    assert_eq!(cpu.register(0xF), 0);
    assert!(lit(&cpu, 0, 0));
    assert!(lit(&cpu, 16, 0));
}

#[test]
fn draw_clips_at_right_and_bottom_edges() {
    // glyph 0 rows: F0 90 90 90 F0
    let mut cpu = machine(&[0x6200, 0xF229, 0x603E, 0x611E, 0xD015]);
    run(&mut cpu, 5);
    assert!(lit(&cpu, 62, 30));
    assert!(lit(&cpu, 63, 30));
    assert!(lit(&cpu, 62, 31));
    assert!(!lit(&cpu, 0, 30));
    assert!(!lit(&cpu, 1, 30));
    assert!(!lit(&cpu, 62, 0));
    assert!(!lit(&cpu, 62, 1));
    assert_eq!(cpu.display().iter().filter(|p| **p).count(), 3);
}

#[test]
fn draw_origin_wraps() {
    let mut cpu = machine(&[0x6200, 0xF229, 0x6042, 0x6121, 0xD011]);
    run(&mut cpu, 5);
    assert!(lit(&cpu, 2, 1));
    assert!(lit(&cpu, 5, 1));
    assert!(!lit(&cpu, 6, 1));
    assert_eq!(cpu.display().iter().filter(|p| **p).count(), 4);
}

#[test]
fn call_then_return() {
    let mut cpu = machine(&[0x2206, 0x0000, 0x0000, 0x00EE]);
    run(&mut cpu, 1);
    assert_eq!(cpu.program_counter(), 0x206);
    assert_eq!(cpu.stack_depth(), 1);
    run(&mut cpu, 1);
    assert_eq!(cpu.program_counter(), 0x202);
    assert_eq!(cpu.stack_depth(), 0);
}

#[test]
fn return_with_empty_stack_cannot_cycle() {
    let cpu = machine(&[0x00EE]);
    assert!(!cpu.can_cycle());
}

#[test]
fn jumps() {
    let mut cpu = machine(&[0x1300]);
    run(&mut cpu, 1);
    assert_eq!(cpu.program_counter(), 0x300);
    let mut cpu = machine(&[0x6010, 0xB300]);
    run(&mut cpu, 2);
    assert_eq!(cpu.program_counter(), 0x310);
}

#[test]
fn skips() {
    let mut cpu = machine(&[0x6107, 0x3107]);
    run(&mut cpu, 2);
    assert_eq!(cpu.program_counter(), 0x206);
    let mut cpu = machine(&[0x6107, 0x3108]);
    run(&mut cpu, 2);
    assert_eq!(cpu.program_counter(), 0x204);
    let mut cpu = machine(&[0x6107, 0x4108]);
    run(&mut cpu, 2);
    assert_eq!(cpu.program_counter(), 0x206);
    let mut cpu = machine(&[0x6107, 0x6207, 0x5120]);
    run(&mut cpu, 3);
    assert_eq!(cpu.program_counter(), 0x208);
    let mut cpu = machine(&[0x6107, 0x6207, 0x9120]);
    run(&mut cpu, 3);
    assert_eq!(cpu.program_counter(), 0x206);
}

#[test]
fn key_skips() {
    let mut cpu = machine(&[0x6104, 0xE19E]);
    cpu.set_keys(vec![4]);
    run(&mut cpu, 2);
    assert_eq!(cpu.program_counter(), 0x206);
    let mut cpu = machine(&[0x6104, 0xE1A1]);
    cpu.set_keys(vec![4]);
    run(&mut cpu, 2);
    assert_eq!(cpu.program_counter(), 0x204);
    let mut cpu = machine(&[0x6104, 0xE1A1]);
    run(&mut cpu, 2);
    assert_eq!(cpu.program_counter(), 0x206);
}

#[test]
fn key_skip_on_out_of_range_value_cannot_cycle() {
    let mut cpu = machine(&[0x6110, 0xE19E]);
    run(&mut cpu, 1);
    assert!(!cpu.can_cycle());
}

#[test]
fn store_bcd() {
    let mut cpu = machine(&[0x60EA, 0xA300, 0xF033]);
    run(&mut cpu, 3);
    assert_eq!(cpu.memory_at(0x300), 2);
    assert_eq!(cpu.memory_at(0x301), 3);
    assert_eq!(cpu.memory_at(0x302), 4);
}

#[test]
fn store_and_load_registers() {
    let mut cpu = machine(&[0x6011, 0x6122, 0x6233, 0xA300, 0xF155, 0x6000, 0x6100, 0x6200, 0xF265]);
    run(&mut cpu, 5);
    assert_eq!(cpu.memory_at(0x300), 0x11);
    assert_eq!(cpu.memory_at(0x301), 0x22);
    assert_eq!(cpu.memory_at(0x302), 0);
    run(&mut cpu, 4);
    assert_eq!(cpu.register(0), 0x11);
    assert_eq!(cpu.register(1), 0x22);
    assert_eq!(cpu.register(2), 0);
    assert_eq!(cpu.index_register(), 0x300);
}

#[test]
fn index_register_ops() {
    let mut cpu = machine(&[0xAFFF, 0x6002, 0xF01E]);
    run(&mut cpu, 3);
    assert_eq!(cpu.index_register(), 0x1001);
    let mut cpu = machine(&[0x601B, 0xF029]);
    run(&mut cpu, 2);
    assert_eq!(cpu.index_register(), (FONT_START + 5 * 0xB) as u16);
}

#[test]
fn timers_saturate_at_zero() {
    let mut cpu = machine(&[0x6002, 0xF015, 0xF018, 0x6100, 0x6100, 0x6100, 0xF107]);
    run(&mut cpu, 3);
    assert_eq!(cpu.delay_timer(), 2);
    assert!(cpu.beep());
    for _ in 0..3 {
        cpu.step(true, 0);
    }
    assert_eq!(cpu.delay_timer(), 0);
    assert_eq!(cpu.sound_timer(), 0);
    assert!(!cpu.beep());
    cpu.step(true, 0);
    assert_eq!(cpu.register(1), 0);
}

#[test]
fn timer_decrement_only_when_due() {
    let mut cpu = machine(&[0x6005, 0xF015, 0x6100, 0x6100]);
    run(&mut cpu, 2);
    cpu.step(false, 0);
    assert_eq!(cpu.delay_timer(), 5);
    cpu.step(true, 0);
    assert_eq!(cpu.delay_timer(), 4);
}

#[test]
fn wait_key_replays_until_pressed() {
    let mut cpu = machine(&[0xF50A]);
    for _ in 0..5 {
        run(&mut cpu, 1);
        assert_eq!(cpu.program_counter(), 0x200);
        assert_eq!(cpu.register(5), 0);
    }
    cpu.set_keys(vec![20, 9, 3]);
    run(&mut cpu, 1);
    assert_eq!(cpu.register(5), 3);
    assert_eq!(cpu.program_counter(), 0x202);
}

#[test]
fn set_keys_replaces_previous_set() {
    let mut cpu = machine(&[0xF50A]);
    cpu.set_keys(vec![2]);
    cpu.set_keys(vec![16, 100]);
    run(&mut cpu, 1);
    assert_eq!(cpu.program_counter(), 0x200);
}

#[test]
fn random_is_masked() {
    let mut cpu = machine(&[0xC30F]);
    cpu.step(false, 0xAB);
    assert_eq!(cpu.register(3), 0x0B);
}

#[test]
fn cycle_runs_one_instruction() {
    let mut cpu = machine(&[0x6A05, 0xC10F]);
    cpu.cycle();
    assert_eq!(cpu.register(0xA), 5);
    assert_eq!(cpu.program_counter(), 0x202);
    cpu.cycle();
    assert!(cpu.register(1) <= 0x0F);
    assert_eq!(cpu.program_counter(), 0x204);
}

#[test]
fn unknown_word_only_advances() {
    let mut cpu = machine(&[0x6107, 0xFFFF, 0x5121, 0x0123]);
    run(&mut cpu, 4);
    assert_eq!(cpu.program_counter(), 0x208);
    assert_eq!(cpu.register(1), 7);
}
