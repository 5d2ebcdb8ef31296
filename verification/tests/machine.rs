use chip8::cpu::Cpu;
use chip8::isa::Chip8Error;

fn pixel_index(x: usize, y: usize) -> usize {
    y * 64 + x
}

#[test]
fn add_imm_wraps_around() {
    let mut cpu = Cpu::new();
    cpu.v[1] = 255;
    cpu.process_opcode(0x7101).unwrap();
    assert_eq!(cpu.v[1], 0, "incrementing 255 by 1 wraps to 0");
    assert_eq!(cpu.v[0xF], 0, "add-immediate sets no flag");
}

#[test]
fn store_load_round_trip() {
    let mut cpu = Cpu::new();
    cpu.v[0] = 5;
    cpu.v[1] = 4;
    cpu.v[2] = 3;
    cpu.i = 0x300;
    cpu.process_opcode(0xF255).unwrap();
    cpu.v[0] = 0xFF;
    cpu.v[1] = 0xFF;
    cpu.v[2] = 0xFF;
    cpu.process_opcode(0xF265).unwrap();
    assert_eq!(cpu.v[0], 5);
    assert_eq!(cpu.v[1], 4);
    assert_eq!(cpu.v[2], 3);
    assert_eq!(cpu.v[3], 0, "register beyond the stored range is unaffected");
    assert_eq!(cpu.memory[0x303], 0, "address beyond the stored range is unaffected");
}

#[test]
fn draw_sets_pixel_and_collision_flag() {
    let mut cpu = Cpu::new();
    cpu.memory[0x300] = 0x80; // one set bit: top-left corner of the sprite
    cpu.i = 0x300;
    cpu.v[0] = 2;
    cpu.v[1] = 3;
    cpu.process_opcode(0xD011).unwrap();
    assert!(cpu.display.pixels[pixel_index(2, 3)], "the pixel is turned on");
    assert_eq!(cpu.v[0xF], 0, "no pixel went from on to off");
}

#[test]
fn draw_twice_toggles_back_and_reports_collision() {
    let mut cpu = Cpu::new();
    cpu.memory[0x300] = 0xFF;
    cpu.memory[0x301] = 0x81;
    cpu.i = 0x300;
    cpu.v[0] = 60; // wraps around the right edge
    cpu.v[1] = 31; // wraps around the bottom edge
    cpu.process_opcode(0xD012).unwrap();
    assert_eq!(cpu.v[0xF], 0, "the first draw hits only dark pixels");
    assert!(cpu.display.pixels[pixel_index(60, 31)]);
    assert!(cpu.display.pixels[pixel_index(3, 31)], "row wraps to the left edge");
    assert!(cpu.display.pixels[pixel_index(60, 0)], "second row wraps to the top");
    cpu.process_opcode(0xD012).unwrap();
    assert_eq!(cpu.v[0xF], 1, "the second identical draw collides");
    for t in 0..2048 {
        assert!(!cpu.display.pixels[t], "every touched pixel is toggled back off");
    }
}

#[test]
fn clear_screen_turns_every_pixel_off() {
    let mut cpu = Cpu::new();
    cpu.memory[0x300] = 0xFF;
    cpu.i = 0x300;
    cpu.process_opcode(0xD011).unwrap();
    assert!(cpu.display.pixels[pixel_index(0, 0)]);
    cpu.process_opcode(0x00E0).unwrap();
    for t in 0..2048 {
        assert!(!cpu.display.pixels[t]);
    }
}

#[test]
fn wait_key_holds_until_a_key_is_pressed() {
    let mut cpu = Cpu::new();
    cpu.process_opcode(0xF50A).unwrap();
    assert_eq!(cpu.pc, 0x200, "no key pressed: the instruction re-executes");
    cpu.process_opcode(0xF50A).unwrap();
    assert_eq!(cpu.pc, 0x200, "still no key pressed across cycles");
    cpu.keypad.keys[9] = true;
    cpu.keypad.keys[4] = true;
    cpu.process_opcode(0xF50A).unwrap();
    assert_eq!(cpu.pc, 0x202, "a pressed key lets the program counter advance once");
    assert_eq!(cpu.v[5], 4, "the lowest pressed symbol is loaded");
}

#[test]
fn skip_key_instructions_query_the_keypad() {
    let mut cpu = Cpu::new();
    cpu.v[2] = 7;
    cpu.keypad.keys[7] = true;
    cpu.process_opcode(0xE29E).unwrap();
    assert_eq!(cpu.pc, 0x204, "skip-if-key-down skips when the key is down");
    cpu.process_opcode(0xE2A1).unwrap();
    assert_eq!(cpu.pc, 0x206, "skip-if-key-up does not skip when the key is down");
    cpu.keypad.keys[7] = false;
    cpu.process_opcode(0xE29E).unwrap();
    assert_eq!(cpu.pc, 0x208, "skip-if-key-down does not skip when the key is up");
    cpu.process_opcode(0xE2A1).unwrap();
    assert_eq!(cpu.pc, 0x20C, "skip-if-key-up skips when the key is up");
}

#[test]
fn keypad_answers_point_queries() {
    let mut cpu = Cpu::new();
    cpu.keypad.keys[3] = true;
    assert!(cpu.keypad.is_key_down(3));
    assert!(!cpu.keypad.is_key_down(4));
}

#[test]
fn return_with_no_active_call_is_an_error() {
    let mut cpu = Cpu::new();
    assert_eq!(cpu.process_opcode(0x00EE), Err(Chip8Error::StackUnderflow));
    assert_eq!(cpu.pc, 0x200, "a fault leaves the machine untouched");
    assert_eq!(cpu.sp, 0);
}

#[test]
fn call_past_sixteen_levels_is_an_error() {
    let mut cpu = Cpu::new();
    for _ in 0..16 {
        cpu.process_opcode(0x2ABC).unwrap();
    }
    assert_eq!(cpu.sp, 16);
    assert_eq!(cpu.process_opcode(0x2ABC), Err(Chip8Error::StackOverflow));
    assert_eq!(cpu.sp, 16, "a fault leaves the stack pointer alone");
}

#[test]
fn key_symbol_out_of_range_is_an_error() {
    let mut cpu = Cpu::new();
    cpu.v[1] = 16;
    assert_eq!(cpu.process_opcode(0xE19E), Err(Chip8Error::InvalidKey));
    assert_eq!(cpu.process_opcode(0xE1A1), Err(Chip8Error::InvalidKey));
    assert_eq!(cpu.pc, 0x200, "a fault leaves the machine untouched");
}

#[test]
fn memory_access_past_the_end_is_an_error() {
    let mut cpu = Cpu::new();
    cpu.i = 4094;
    cpu.v[1] = 234;
    assert_eq!(cpu.process_opcode(0xF133), Err(Chip8Error::MemoryOutOfRange));
    cpu.i = 4090;
    assert_eq!(cpu.process_opcode(0xD019), Err(Chip8Error::MemoryOutOfRange));
    assert_eq!(cpu.process_opcode(0xF755), Err(Chip8Error::MemoryOutOfRange));
    assert_eq!(cpu.process_opcode(0xF765), Err(Chip8Error::MemoryOutOfRange));
    assert_eq!(cpu.pc, 0x200, "a fault leaves the machine untouched");
}

#[test]
fn fetch_past_the_end_is_an_error() {
    let mut cpu = Cpu::new();
    cpu.pc = 4095;
    assert_eq!(cpu.execute_cycle(), Err(Chip8Error::MemoryOutOfRange));
    assert_eq!(cpu.pc, 4095, "a fault leaves the program counter alone");
}

#[test]
fn load_installs_font_and_program() {
    let mut cpu = Cpu::new();
    cpu.load(&[0x61, 0xAA, 0x12, 0x00]);
    assert_eq!(cpu.memory[0], 0xF0, "the font is installed from address 0");
    assert_eq!(cpu.memory[79], 0x80, "the font ends at address 79");
    assert_eq!(cpu.memory[0x200], 0x61, "the program starts at 0x200");
    assert_eq!(cpu.memory[0x201], 0xAA);
    assert_eq!(cpu.pc, 0x200);
    cpu.execute_cycle().unwrap();
    assert_eq!(cpu.v[1], 0xAA, "the fetched instruction executes");
    assert_eq!(cpu.pc, 0x202);
}

#[test]
fn load_truncates_at_memory_capacity() {
    let mut cpu = Cpu::new();
    let image = vec![7u8; 5000];
    cpu.load(&image);
    assert_eq!(cpu.memory.len(), 4096);
    assert_eq!(cpu.memory[4095], 7, "bytes up to capacity are copied");
    assert_eq!(cpu.pc, 0x200);
}

#[test]
fn reset_zeroes_state_and_keeps_keys() {
    let mut cpu = Cpu::new();
    cpu.v[3] = 9;
    cpu.i = 0x300;
    cpu.sp = 2;
    cpu.dt = 5;
    cpu.st = 6;
    cpu.keypad.keys[2] = true;
    cpu.reset();
    assert_eq!(cpu.v[3], 0);
    assert_eq!(cpu.i, 0);
    assert_eq!(cpu.sp, 0);
    assert_eq!(cpu.dt, 0);
    assert_eq!(cpu.st, 0);
    assert_eq!(cpu.pc, 0x200);
    assert_eq!(cpu.memory[0], 0xF0, "the font is re-installed");
    assert!(cpu.keypad.keys[2], "key state belongs to the input collaborator");
}

#[test]
fn timers_decrement_toward_zero_and_stop() {
    let mut cpu = Cpu::new();
    cpu.dt = 2;
    cpu.st = 1;
    cpu.decrement_timers();
    assert_eq!(cpu.dt, 1);
    assert_eq!(cpu.st, 0);
    cpu.decrement_timers();
    assert_eq!(cpu.dt, 0);
    assert_eq!(cpu.st, 0);
    cpu.decrement_timers();
    assert_eq!(cpu.dt, 0, "a timer at zero never wraps below zero");
    assert_eq!(cpu.st, 0);
}

#[test]
fn random_is_masked_by_the_immediate() {
    let mut cpu = Cpu::new();
    cpu.v[3] = 0xFF;
    cpu.process_opcode(0xC300).unwrap();
    assert_eq!(cpu.v[3], 0, "a zero mask forces a zero result");
    cpu.process_opcode(0xC30F).unwrap();
    assert_eq!(cpu.v[3] & 0xF0, 0, "bits outside the mask stay clear");
}

#[test]
fn random_with_a_chosen_byte_is_the_masked_byte() {
    let mut cpu = Cpu::new();
    cpu.process_opcode_with_rand(0xC3F0, 0xAB).unwrap();
    assert_eq!(cpu.v[3], 0xA0, "the register gets the immediate AND the drawn byte");
}

#[test]
fn shift_right_reports_the_low_bit() {
    let mut cpu = Cpu::new();
    cpu.v[1] = 0b1000_0101;
    cpu.process_opcode(0x8106).unwrap();
    assert_eq!(cpu.v[1], 0b0100_0010);
    assert_eq!(cpu.v[0xF], 1, "the shifted-out low bit goes to the flag");
    cpu.process_opcode(0x8106).unwrap();
    assert_eq!(cpu.v[1], 0b0010_0001);
    assert_eq!(cpu.v[0xF], 0);
}

#[test]
fn shift_left_reports_the_high_bit_normalized() {
    let mut cpu = Cpu::new();
    cpu.v[2] = 0b1100_0000;
    cpu.process_opcode(0x820E).unwrap();
    assert_eq!(cpu.v[2], 0b1000_0000, "the shift wraps");
    assert_eq!(cpu.v[0xF], 1, "the shifted-out high bit goes to the flag as 0/1");
    cpu.v[3] = 1;
    cpu.process_opcode(0x830E).unwrap();
    assert_eq!(cpu.v[3], 2);
    assert_eq!(cpu.v[0xF], 0);
}

#[test]
fn subtract_flags_mean_no_borrow() {
    let mut cpu = Cpu::new();
    cpu.v[1] = 5;
    cpu.v[2] = 5;
    cpu.process_opcode(0x8125).unwrap();
    assert_eq!(cpu.v[1], 0);
    assert_eq!(cpu.v[0xF], 1, "minuend equal to subtrahend: no borrow");
    cpu.v[1] = 4;
    cpu.v[2] = 5;
    cpu.process_opcode(0x8125).unwrap();
    assert_eq!(cpu.v[1], 255, "the difference wraps");
    assert_eq!(cpu.v[0xF], 0, "borrow taken");
    cpu.v[1] = 5;
    cpu.v[2] = 9;
    cpu.process_opcode(0x8127).unwrap();
    assert_eq!(cpu.v[1], 4, "the reverse subtraction");
    assert_eq!(cpu.v[0xF], 1);
}

#[test]
fn font_address_is_five_bytes_per_glyph() {
    let mut cpu = Cpu::new();
    cpu.reset();
    cpu.v[1] = 3;
    cpu.process_opcode(0xF129).unwrap();
    assert_eq!(cpu.i, 15, "glyph 3 starts at address 15");
    assert_eq!(cpu.memory[15], 0xF0, "the glyph bytes are in place");
    assert_eq!(cpu.memory[16], 0x10);
}

#[test]
fn jump_with_offset_adds_register_zero() {
    let mut cpu = Cpu::new();
    cpu.v[0] = 5;
    cpu.process_opcode(0xB123).unwrap();
    assert_eq!(cpu.pc, 0x128);
}

#[test]
fn timer_transfers_move_whole_bytes() {
    let mut cpu = Cpu::new();
    cpu.v[1] = 60;
    cpu.process_opcode(0xF115).unwrap();
    assert_eq!(cpu.dt, 60);
    cpu.process_opcode(0xF118).unwrap();
    assert_eq!(cpu.st, 60);
    cpu.process_opcode(0xF207).unwrap();
    assert_eq!(cpu.v[2], 60, "the delay timer is read back");
}

#[test]
fn add_index_has_no_flag() {
    let mut cpu = Cpu::new();
    cpu.i = 10;
    cpu.v[1] = 5;
    cpu.v[0xF] = 0;
    cpu.process_opcode(0xF11E).unwrap();
    assert_eq!(cpu.i, 15);
    assert_eq!(cpu.v[0xF], 0);
}

#[test]
fn unrecognized_opcode_is_a_no_op() {
    let mut cpu = Cpu::new();
    cpu.process_opcode(0x0123).unwrap();
    assert_eq!(cpu.pc, 0x202, "the program counter still advances");
    assert_eq!(cpu.sp, 0);
    assert_eq!(cpu.v[0], 0);
    cpu.process_opcode(0x5231).unwrap();
    assert_eq!(cpu.pc, 0x204, "a malformed skip pattern is a no-op too");
}
