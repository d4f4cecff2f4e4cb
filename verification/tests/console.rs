use freax::console::{
    cgaputc, consoleintr, consoleintr_all, consoleread, consolewrite, consputc, cprintf, printint, printptr, Arg, ConsoleRead,
    Input, BACKSPACE, C, CRT_CELLS,
};
use freax::kbd::{kbdgetc, kbdintr, KEY_UP};

fn text(s: &str) -> Vec<u8> {
    s.as_bytes().to_vec()
}

fn chars(s: &str) -> Vec<char> {
    s.chars().collect()
}

#[test]
fn printint_bases_and_signs() {
    assert_eq!(printint(0, 10, true), text("0"));
    assert_eq!(printint(1234, 10, true), text("1234"));
    assert_eq!(printint(-42, 10, true), text("42"));
    assert_eq!(printint(-1, 16, false), text("ffffffff"));
    assert_eq!(printint(255, 16, false), text("ff"));
    assert_eq!(printint(i32::MAX, 10, true), text("2147483647"));
}

#[test]
fn printptr_sixteen_digits() {
    assert_eq!(printptr(0xdead_beef), text("00000000deadbeef"));
    assert_eq!(printptr(u64::MAX), text("ffffffffffffffff"));
}

#[test]
fn cprintf_directives() {
    let args = vec![Arg::Int(-7), Arg::Int(255), Arg::Ptr(0x10), Arg::Str(Some(chars("ok"))), Arg::Str(None)];
    let out = cprintf(&chars("d=%d x=%x p=%p s=%s n=%s %% %q"), &args);
    assert_eq!(out, text("d=7 x=ff p=0000000000000010 s=ok n=(null) % %q"));
    let lone = cprintf(&chars("50%"), &vec![]);
    assert_eq!(lone, vec![b'5', b'0', b'%', 0]);
}

#[test]
fn cprintf_puts_out_low_bytes_of_characters() {
    // each character goes out as its low byte, in the format and in a %s argument
    let out = cprintf(&chars("\u{e9}=%s;%\u{e9}"), &vec![Arg::Str(Some(chars("\u{125}x")))]);
    assert_eq!(out, vec![0xE9, b'=', 0x25, b'x', b';', b'%', 0xE9]);
    // U+0125 has low byte '%' but is not a directive
    let plain = cprintf(&chars("a\u{125}d"), &vec![]);
    assert_eq!(plain, vec![b'a', 0x25, b'd']);
}

#[test]
fn control_keys() {
    assert_eq!(C(b'D'), 4);
    assert_eq!(C(b'P'), 16);
}

fn feed(input: &mut Input, s: &[u8]) -> Vec<i32> {
    let mut echo = Vec::new();
    for &c in s {
        let ev = consoleintr(input, c as i32);
        echo.extend(ev.echo);
    }
    echo
}

#[test]
fn consoleintr_edits_line() {
    let mut input = Input::new();
    let echo = feed(&mut input, b"ab\x08c");
    assert_eq!(echo, vec![97, 98, BACKSPACE, 99]);
    assert_eq!(input.e, 2);
    assert_eq!(input.w, 0);
    let ev = consoleintr(&mut input, 13);
    assert_eq!(ev.echo, vec![10]);
    assert!(ev.wakeup);
    assert_eq!(input.w, 3);
    assert_eq!(&input.buf[0..3], b"ac\n");
    // control-U erases the line being edited, not the ready one
    feed(&mut input, b"xyz");
    let ev = consoleintr(&mut input, 0x15);
    assert_eq!(ev.echo, vec![BACKSPACE, BACKSPACE, BACKSPACE]);
    assert_eq!(input.e, 3);
    let ev = consoleintr(&mut input, 0x10);
    assert!(ev.procdump && !ev.reboot);
    let ev = consoleintr(&mut input, 0x1A);
    assert!(ev.reboot);
}

#[test]
fn consoleread_line_and_eof() {
    let mut input = Input::new();
    feed(&mut input, b"hi\n");
    let mut dst = Vec::new();
    match consoleread(&mut input, &mut dst, 10, false) {
        ConsoleRead::Done(n) => assert_eq!(n, 3),
        _ => panic!("expected a line"),
    }
    assert_eq!(dst, text("hi\n"));
    // the ring is empty now
    let mut dst2 = Vec::new();
    assert!(matches!(consoleread(&mut input, &mut dst2, 10, false), ConsoleRead::Sleep));
    assert!(matches!(consoleread(&mut input, &mut dst2, 10, true), ConsoleRead::Killed));
    // control-D at the start of a read ends it with nothing read
    feed(&mut input, &[4]);
    let mut dst3 = Vec::new();
    assert!(matches!(consoleread(&mut input, &mut dst3, 10, false), ConsoleRead::Done(0)));
}

#[test]
fn cga_newline_backspace_and_scroll() {
    let mut screen = vec![0u16; CRT_CELLS];
    let p = cgaputc(&mut screen, 0, 'A' as i32);
    assert_eq!(p, 1);
    assert_eq!(screen[0], 0x0741);
    assert_eq!(screen[1], 0x0720);
    let p = cgaputc(&mut screen, p, 10);
    assert_eq!(p, 80);
    let p = cgaputc(&mut screen, p, BACKSPACE);
    assert_eq!(p, 79);
    // the last row scrolls everything up one row
    screen[80] = 0x0742;
    let p = cgaputc(&mut screen, 23 * 80 + 5, 10);
    assert_eq!(p, 23 * 80);
    assert_eq!(screen[0], 0x0742);
}

#[test]
fn consputc_serial_and_screen() {
    let mut screen = vec![0u16; CRT_CELLS];
    let mut uart = Vec::new();
    let p = consputc(&mut screen, 5, &mut uart, BACKSPACE);
    assert_eq!(p, 4);
    assert_eq!(uart, vec![8, 32, 8]);
    let p = consputc(&mut screen, p, &mut uart, 'z' as i32);
    assert_eq!(p, 5);
    assert_eq!(uart, vec![8, 32, 8, b'z']);
    assert_eq!(screen[4], 0x0700 | b'z' as u16);
}

#[test]
fn consolewrite_writes_first_n_bytes() {
    let mut screen = vec![0u16; CRT_CELLS];
    let mut uart = Vec::new();
    let mut pos: i32 = 0;
    let r = consolewrite(&mut screen, &mut pos, &mut uart, &text("hey\nyou"), 5);
    assert_eq!(r, 5);
    assert_eq!(uart, text("hey\ny"));
    assert_eq!(pos, 81);
    assert_eq!(screen[80], 0x0700 | b'y' as u16);
    // asking for more than the buffer holds writes the whole buffer
    let r = consolewrite(&mut screen, &mut pos, &mut uart, &text("!"), 10);
    assert_eq!(r, 10);
    assert_eq!(uart, text("hey\ny!"));
}

#[test]
fn kbdgetc_keys_shift_caps_ctrl() {
    let mut shift: u8 = 0;
    assert_eq!(kbdgetc(&mut shift, 0, 0x1E), -1);
    assert_eq!(kbdgetc(&mut shift, 1, 0x1E), 'a' as i32);
    assert_eq!(kbdgetc(&mut shift, 1, 0x2A), 0); // shift down
    assert_eq!(kbdgetc(&mut shift, 1, 0x1E), 'A' as i32);
    assert_eq!(kbdgetc(&mut shift, 1, 0xAA), 0); // shift up
    assert_eq!(kbdgetc(&mut shift, 1, 0x1E), 'a' as i32);
    assert_eq!(kbdgetc(&mut shift, 1, 0x3A), 0); // caps lock on
    assert_eq!(kbdgetc(&mut shift, 1, 0x10), 'Q' as i32);
    assert_eq!(kbdgetc(&mut shift, 1, 0x3A), 0); // caps lock off
    assert_eq!(kbdgetc(&mut shift, 1, 0x1D), 0); // control down
    assert_eq!(kbdgetc(&mut shift, 1, 0x20), 4); // control-D
    assert_eq!(kbdgetc(&mut shift, 1, 0x9D), 0); // control up
    assert_eq!(kbdgetc(&mut shift, 1, 0xE0), 0);
    assert_eq!(kbdgetc(&mut shift, 1, 0x48), KEY_UP as i32);
    assert_eq!(shift, 0);
}

#[test]
fn kbdintr_feeds_console() {
    let mut shift: u8 = 0;
    let mut input = Input::new();
    assert!(kbdintr(&mut shift, &mut input, 0, 0x1E).is_none());
    let ev = kbdintr(&mut shift, &mut input, 1, 0x23).unwrap(); // 'h'
    assert_eq!(ev.echo, vec!['h' as i32]);
    let ev = kbdintr(&mut shift, &mut input, 1, 0x1C).unwrap(); // enter
    assert!(ev.wakeup);
    assert_eq!(&input.buf[0..2], b"h\n");
}

#[test]
fn consoleintr_all_stops_at_first_negative() {
    let mut input = Input::new();
    let cs = vec!['h' as i32, 'i' as i32, 13, 'x' as i32, 0x7f, 0x7f, 0x7f, -1, 'z' as i32];
    let (used, evs) = consoleintr_all(&mut input, &cs);
    assert_eq!(used, 7);
    assert_eq!(evs.len(), 7);
    assert!(evs[2].wakeup);
    assert_eq!(evs[2].echo, vec![10]);
    // the committed line "hi\n" survives the deletes
    assert_eq!((input.r, input.w, input.e), (0, 3, 3));
    assert_eq!(&input.buf[..3], b"hi\n");
    assert_eq!(evs[4].echo, vec![BACKSPACE]);
    assert!(evs[5].echo.is_empty());
}
