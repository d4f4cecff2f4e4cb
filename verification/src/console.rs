//! Console: number formatting, `cprintf`'s format interpreter, the input
//! line discipline, and the CGA text screen.  Output goes through
//! `consputc`, which is device I/O; these functions compute what to output.
use vstd::prelude::*;

verus! {

/// Size of the console input ring.
pub const INPUT_BUF: usize = 128;
/// The character code that `consputc` turns into an erasing backspace.
pub const BACKSPACE: i32 = 0x100;
/// Columns of the text screen.
pub const CRT_COLS: i32 = 80;
/// Cells of the text screen (80 columns, 25 rows).
pub const CRT_CELLS: usize = 2000;

/// Control-x: `C(b'D')` is control-D.
#[allow(non_snake_case)]
pub fn C(x: u8) -> (r: u8)
    requires
        x >= 64,
    ensures
        r == x - 64,
{
    x - 64
}

/// The character for digit `d` of "0123456789abcdef".
pub open spec fn digit(d: int) -> u8 {
    if d < 10 {
        (48 + d) as u8
    } else {
        (87 + d) as u8
    }
}

fn digit_char(d: u32) -> (r: u8)
    requires
        d < 16,
    ensures
        r == digit(d as int),
{
    if d < 10 {
        (48 + d) as u8
    } else {
        (87 + d) as u8
    }
}

/// The digits of `x` in base `base`, most significant first, without
/// leading zeros ("0" for zero).
pub open spec fn show(x: nat, base: nat) -> Seq<u8>
    decreases x,
{
    if base < 2 || x < base {
        seq![digit(x as int)]
    } else {
        proof {
            vstd::arithmetic::div_mod::lemma_div_decreases(x as int, base as int);
        }
        show(x / base, base).push(digit((x % base) as int))
    }
}

/// The value `printint` prints the digits of.
pub open spec fn printint_magnitude(xx: i32, sign: bool) -> nat {
    if sign && xx < 0 {
        (-xx) as nat
    } else {
        (xx as u32) as nat
    }
}

/// What `printint` prints: the digits of the magnitude.  A negative
/// signed value is negated before the sign is tested, so no minus sign is
/// printed.
pub open spec fn printint_text(xx: i32, base: u32, sign: bool) -> Seq<u8> {
    show(printint_magnitude(xx, sign), base as nat)
}

proof fn lemma_show_step(x: nat, base: nat)
    requires
        2 <= base,
        x > 0,
    ensures
        x / base < x,
        x / base > 0 ==> show(x, base) == show(x / base, base).push(digit((x % base) as int)),
        x / base == 0 ==> show(x, base) == seq![digit((x % base) as int)],
{
    vstd::arithmetic::div_mod::lemma_div_decreases(x as int, base as int);
    if x < base {
        vstd::arithmetic::div_mod::lemma_small_mod(x, base);
        vstd::arithmetic::div_mod::lemma_basic_div(x as int, base as int);
        assert(show(x, base) == seq![digit(x as int)]);
        assert((x % base) as int == x as int);
    } else {
        vstd::arithmetic::div_mod::lemma_div_non_zero(x as int, base as int);
    }
}

/// The characters `printint` prints for `xx` in base `base`, signed when
/// `sign`.  The digits are formatted into a 16-byte buffer, so the text
/// must fit in 16 characters; negating the most negative value overflows.
#[verifier::spinoff_prover]
pub fn printint(xx: i32, base: u32, sign: bool) -> (r: Vec<u8>)
    requires
        2 <= base <= 16,
        !(sign && xx == i32::MIN),
        printint_text(xx, base, sign).len() <= 16,
    ensures
        r@ == printint_text(xx, base, sign),
{
    let neg = sign && xx < 0;
    let mut x: u32 = if neg {
        (-xx) as u32
    } else {
        xx as u32
    };
    let ghost x0 = x as nat;
    assert(x0 == printint_magnitude(xx, sign));
    // digits, least significant first
    let mut buf: Vec<u8> = Vec::new();
    buf.push(digit_char(x % base));
    let ghost xs = x;
    proof {
        if x > 0 {
            lemma_show_step(x as nat, base as nat);
        } else {
            assert(show(0, base as nat) == seq![digit(0)]);
        }
    }
    x = x / base;
    proof {
        assert(buf@ == seq![digit((xs % base) as int)]);
        assert(buf@.reverse() =~= buf@);
        if x == 0 {
            if xs > 0 {
                assert(show(x0, base as nat) == seq![digit((xs % base) as int)]);
            } else {
                assert(xs % base == 0);
            }
        }
    }
    while x != 0
        invariant
            2 <= base <= 16,
            x > 0 ==> show(x0, base as nat) == show(x as nat, base as nat) + buf@.reverse(),
            x == 0 ==> show(x0, base as nat) == buf@.reverse(),
            buf@.len() <= show(x0, base as nat).len(),
        decreases x,
    {
        proof {
            lemma_show_step(x as nat, base as nat);
        }
        let ghost before = buf@;
        buf.push(digit_char(x % base));
        proof {
            assert(buf@.reverse() =~= seq![digit((x % base) as int)] + before.reverse());
            if x / base > 0 {
                assert(show(x as nat, base as nat) + before.reverse() =~= show((x / base) as nat, base as nat)
                    + buf@.reverse());
            } else {
                assert(seq![digit((x % base) as int)] + before.reverse() =~= buf@.reverse());
            }
        }
        x = x / base;
    }
    let mut out: Vec<u8> = Vec::new();
    let ghost pre = out@;
    let mut i: usize = buf.len();
    while i > 0
        invariant
            i <= buf@.len(),
            out@ == pre + buf@.reverse().subrange(0, (buf@.len() - i) as int),
        decreases i,
    {
        i -= 1;
        out.push(buf[i]);
        proof {
            assert(buf@.reverse().subrange(0, (buf@.len() - i) as int) =~= buf@.reverse().subrange(
                0,
                (buf@.len() - i - 1) as int,
            ).push(buf@[i as int]));
        }
    }
    proof {
        assert(buf@.reverse().subrange(0, buf@.len() as int) =~= buf@.reverse());
        assert(pre =~= Seq::<u8>::empty());
        assert(out@ =~= buf@.reverse());
    }
    out
}

/// Hex digit `i` (0 is the most significant) of a 64-bit value.
pub open spec fn nibble(x: u64, i: int) -> u64 {
    (x >> ((60 - 4 * i) as u64)) & 0xf
}

/// The 16 hexadecimal digits of `x`, most significant first, with leading
/// zeros.
pub fn printptr(x: u64) -> (r: Vec<u8>)
    ensures
        r@.len() == 16,
        forall|i: int| 0 <= i < 16 ==> r@[i] == digit(nibble(x, i) as int),
{
    let mut y = x;
    assert(x << 0u64 == x) by (bit_vector);
    let mut out: Vec<u8> = Vec::new();
    let mut k: u64 = 0;
    while k < 16
        invariant
            k <= 16,
            out@.len() == k,
            y == x << ((4 * k) as u64),
            forall|i: int| 0 <= i < k ==> out@[i] == digit(nibble(x, i) as int),
        decreases 16 - k,
    {
        let d = (y >> 60u64) & 0xf;
        assert(k < 16 ==> ((x << ((4 * k) as u64)) >> 60u64) & 0xfu64 == (x >> ((60 - 4 * k) as u64)) & 0xfu64)
            by (bit_vector);
        assert(d < 16) by (bit_vector)
            requires
                d == (y >> 60u64) & 0xf,
        ;
        out.push(digit_char(d as u32));
        assert(k < 16 ==> (x << ((4 * k) as u64)) << 4u64 == x << ((4 * (k + 1)) as u64)) by (bit_vector);
        y = y << 4u64;
        k += 1;
    }
    out
}

/// One argument of `cprintf`.
pub enum Arg {
    Int(i32),
    Ptr(u64),
    /// A string; `None` prints as "(null)".
    Str(Option<Vec<char>>),
}

/// The byte the console puts out for character `c`: its low eight bits.
pub open spec fn low_byte(c: char) -> u8 {
    (c as u32 % 256) as u8
}

/// The bytes put out for the characters of `t`.
pub open spec fn low_bytes(t: Seq<char>) -> Seq<u8> {
    t.map_values(|c: char| low_byte(c))
}

/// The byte put out for character `c`.
fn char_byte(c: char) -> (r: u8)
    ensures
        r == low_byte(c),
{
    ((c as u32) % 256) as u8
}

/// The 16 characters `printptr` prints for `x`.
pub open spec fn hex16(x: u64) -> Seq<u8> {
    Seq::new(16, |i: int| digit(nibble(x, i) as int))
}

/// What `cprintf` prints for format `fmt` with arguments `args`, each
/// character going out as its low byte: `%d`
/// prints a signed decimal, `%x` an unsigned hexadecimal, `%p` a pointer
/// as 16 hex digits, `%s` a string ("(null)" for none), `%%` a percent
/// sign; any other character after `%` is printed after a percent sign, and
/// a lone `%` at the end prints a percent sign and a zero byte.
pub open spec fn render(fmt: Seq<char>, args: Seq<Arg>) -> Seq<u8>
    decreases fmt.len(),
{
    if fmt.len() == 0 {
        seq![]
    } else if fmt[0] != '%' {
        seq![low_byte(fmt[0])] + render(fmt.drop_first(), args)
    } else if fmt.len() == 1 {
        seq![37u8, 0u8]
    } else {
        let rest = fmt.subrange(2, fmt.len() as int);
        let c = fmt[1];
        if c == 'd' {
            match args[0] {
                Arg::Int(v) => printint_text(v, 10, true) + render(rest, args.drop_first()),
                _ => seq![],
            }
        } else if c == 'x' {
            match args[0] {
                Arg::Int(v) => printint_text(v, 16, false) + render(rest, args.drop_first()),
                _ => seq![],
            }
        } else if c == 'p' {
            match args[0] {
                Arg::Ptr(v) => hex16(v) + render(rest, args.drop_first()),
                _ => seq![],
            }
        } else if c == 's' {
            match args[0] {
                Arg::Str(Some(t)) => low_bytes(t@) + render(rest, args.drop_first()),
                Arg::Str(None) => seq![40u8, 110u8, 117u8, 108u8, 108u8, 41u8] + render(rest, args.drop_first()),
                _ => seq![],
            }
        } else if c == '%' {
            seq![37u8] + render(rest, args)
        } else {
            seq![37u8, low_byte(c)] + render(rest, args)
        }
    }
}

/// Every directive of `fmt` has an argument of its kind, and no `%d`
/// argument is the most negative integer (whose negation overflows).
pub open spec fn args_match(fmt: Seq<char>, args: Seq<Arg>) -> bool
    decreases fmt.len(),
{
    if fmt.len() == 0 {
        true
    } else if fmt[0] != '%' {
        args_match(fmt.drop_first(), args)
    } else if fmt.len() == 1 {
        true
    } else {
        let rest = fmt.subrange(2, fmt.len() as int);
        let c = fmt[1];
        if c == 'd' {
            args.len() > 0 && (match args[0] {
                Arg::Int(v) => v != i32::MIN,
                _ => false,
            }) && args_match(rest, args.drop_first())
        } else if c == 'x' {
            args.len() > 0 && args[0] is Int && args_match(rest, args.drop_first())
        } else if c == 'p' {
            args.len() > 0 && args[0] is Ptr && args_match(rest, args.drop_first())
        } else if c == 's' {
            args.len() > 0 && args[0] is Str && args_match(rest, args.drop_first())
        } else {
            args_match(rest, args)
        }
    }
}

proof fn lemma_show_len(x: nat, base: nat, k: nat)
    requires
        2 <= base,
        k >= 1,
        x < vstd::arithmetic::power::pow(base as int, k),
    ensures
        show(x, base).len() <= k,
    decreases k,
{
    reveal(vstd::arithmetic::power::pow);
    if x >= base {
        let p = vstd::arithmetic::power::pow(base as int, (k - 1) as nat);
        assert(vstd::arithmetic::power::pow(base as int, k) == base * p);
        vstd::arithmetic::div_mod::lemma_multiply_divide_lt(x as int, base as int, p);
        if k == 1 {
            assert(p == 1);
            vstd::arithmetic::div_mod::lemma_div_non_zero(x as int, base as int);
            assert(false);
        } else {
            lemma_show_len(x / base, base, (k - 1) as nat);
        }
    }
}

proof fn lemma_show_len_u32(x: nat, base: nat)
    requires
        base == 10 || base == 16,
        x < 0x1_0000_0000,
    ensures
        base == 10 ==> show(x, base).len() <= 10,
        base == 16 ==> show(x, base).len() <= 8,
{
    if base == 10 {
        assert(vstd::arithmetic::power::pow(10, 10) == 10000000000) by {
            reveal_with_fuel(vstd::arithmetic::power::pow, 11);
            reveal(vstd::arithmetic::power::pow);
        }
        lemma_show_len(x, base, 10);
    } else {
        assert(vstd::arithmetic::power::pow(16, 8) == 0x1_0000_0000) by {
            reveal_with_fuel(vstd::arithmetic::power::pow, 9);
            reveal(vstd::arithmetic::power::pow);
        }
        lemma_show_len(x, base, 8);
    }
}

/// Formats `fmt` with `args`, returning the characters to print.
pub fn cprintf(fmt: &Vec<char>, args: &Vec<Arg>) -> (r: Vec<u8>)
    requires
        fmt@.len() > 0,
        args_match(fmt@, args@),
    ensures
        r@ == render(fmt@, args@),
{
    let mut out: Vec<u8> = Vec::new();
    let mut i: usize = 0;
    let mut j: usize = 0;
    proof {
        assert(fmt@.subrange(0, fmt@.len() as int) =~= fmt@);
        assert(args@.subrange(0, args@.len() as int) =~= args@);
        assert(out@ + render(fmt@, args@) =~= render(fmt@, args@));
    }
    while i < fmt.len()
        invariant
            i <= fmt@.len(),
            j <= args@.len(),
            args_match(fmt@.subrange(i as int, fmt@.len() as int), args@.subrange(j as int, args@.len() as int)),
            render(fmt@, args@) == out@ + render(
                fmt@.subrange(i as int, fmt@.len() as int),
                args@.subrange(j as int, args@.len() as int),
            ),
        decreases fmt@.len() - i,
    {
        let ghost f = fmt@.subrange(i as int, fmt@.len() as int);
        let ghost a = args@.subrange(j as int, args@.len() as int);
        let c = fmt[i];
        if c != '%' {
            out.push(char_byte(c));
            i += 1;
            proof {
                assert(f.drop_first() =~= fmt@.subrange(i as int, fmt@.len() as int));
            }
            continue;
        }
        if i + 1 >= fmt.len() {
            out.push(37u8);
            out.push(0u8);
            i += 1;
            proof {
                assert(fmt@.subrange(i as int, fmt@.len() as int) =~= Seq::<char>::empty());
            }
            continue;
        }
        let d = fmt[i + 1];
        proof {
            assert(f.subrange(2, f.len() as int) =~= fmt@.subrange(i + 2, fmt@.len() as int));
            if d == 'd' || d == 'x' || d == 'p' || d == 's' {
                assert(j < args@.len());
                assert(a.drop_first() =~= args@.subrange(j + 1, args@.len() as int));
            }
        }
        if d == 'd' || d == 'x' {
            match &args[j] {
                Arg::Int(v) => {
                    proof {
                        assert(f[0] == '%' && f[1] == d && f.len() > 1);
                        assert(a.len() > 0);
                    }
                    assert(j < args.len());
                    j += 1;
                    proof {
                        lemma_show_len_u32(printint_magnitude(*v, d == 'd'), if d == 'd' { 10 } else { 16 });
                    }
                    let t = printint(*v, if d == 'd' { 10 } else { 16 }, d == 'd');
                    let mut k: usize = 0;
                    let ghost o0 = out@;
                    while k < t.len()
                        invariant
                            k <= t@.len(),
                            out@ == o0 + t@.subrange(0, k as int),
                        decreases t@.len() - k,
                    {
                        out.push(t[k]);
                        k += 1;
                        proof {
                            assert(out@ =~= o0 + t@.subrange(0, k as int));
                        }
                    }
                    proof {
                        assert(t@.subrange(0, t@.len() as int) =~= t@);
                    }
                },
                _ => {
                    proof {
                        assert(false);
                    }
                },
            }
        } else if d == 'p' {
            match &args[j] {
                Arg::Ptr(v) => {
                    proof {
                        assert(f[0] == '%' && f[1] == d && f.len() > 1);
                        assert(a.len() > 0);
                    }
                    assert(j < args.len());
                    j += 1;
                    let t = printptr(*v);
                    proof {
                        assert(t@ =~= hex16(*v));
                    }
                    let mut k: usize = 0;
                    let ghost o0 = out@;
                    while k < t.len()
                        invariant
                            k <= t@.len(),
                            out@ == o0 + t@.subrange(0, k as int),
                        decreases t@.len() - k,
                    {
                        out.push(t[k]);
                        k += 1;
                        proof {
                            assert(out@ =~= o0 + t@.subrange(0, k as int));
                        }
                    }
                    proof {
                        assert(t@.subrange(0, t@.len() as int) =~= t@);
                    }
                },
                _ => {
                    proof {
                        assert(false);
                    }
                },
            }
        } else if d == 's' {
            match &args[j] {
                Arg::Str(o) => {
                    proof {
                        assert(f[0] == '%' && f[1] == d && f.len() > 1);
                        assert(a.len() > 0);
                    }
                    assert(j < args.len());
                    j += 1;
                    let ghost o0 = out@;
                    match o {
                        Some(t) => {
                            let mut k: usize = 0;
                            while k < t.len()
                                invariant
                                    k <= t@.len(),
                                    out@ == o0 + low_bytes(t@).subrange(0, k as int),
                                decreases t@.len() - k,
                            {
                                out.push(char_byte(t[k]));
                                k += 1;
                                proof {
                                    assert(out@ =~= o0 + low_bytes(t@).subrange(0, k as int));
                                }
                            }
                            proof {
                                assert(low_bytes(t@).subrange(0, t@.len() as int) =~= low_bytes(t@));
                            }
                        },
                        None => {
                            out.push(40u8);
                            out.push(110u8);
                            out.push(117u8);
                            out.push(108u8);
                            out.push(108u8);
                            out.push(41u8);
                            proof {
                                assert(out@ =~= o0 + seq![40u8, 110u8, 117u8, 108u8, 108u8, 41u8]);
                            }
                        },
                    }
                },
                _ => {
                    proof {
                        assert(false);
                    }
                },
            }
        } else if d == '%' {
            out.push(37u8);
        } else {
            out.push(37u8);
            out.push(char_byte(d));
        }
        i += 2;
    }
    proof {
        assert(fmt@.subrange(i as int, fmt@.len() as int) =~= Seq::<char>::empty());
        assert(out@ + Seq::<u8>::empty() =~= out@);
    }
    out
}

/// The console input ring: `buf[r..w)` is ready for reading, `buf[w..e)` is
/// the line being edited (positions taken modulo `INPUT_BUF`).
pub struct Input {
    pub buf: Vec<u8>,
    pub r: u32,
    pub w: u32,
    pub e: u32,
}

impl Input {
    pub open spec fn wf(&self) -> bool {
        &&& self.buf@.len() == INPUT_BUF
        &&& self.r <= self.w <= self.e <= self.r + INPUT_BUF
    }

    /// Character at ring position `p`.
    pub open spec fn at(&self, p: int) -> u8 {
        self.buf@[p % INPUT_BUF as int]
    }

    /// An empty ring.
    pub fn new() -> (r: Self)
        ensures
            r.wf(),
            r.r == 0 && r.w == 0 && r.e == 0,
    {
        Input { buf: vec![0u8; INPUT_BUF], r: 0, w: 0, e: 0 }
    }
}

/// What the console must do after one input character.
pub struct ConsoleEvents {
    /// Characters to echo with `consputc`, in order.
    pub echo: Vec<i32>,
    /// Readers sleeping on the ring must be woken.
    pub wakeup: bool,
    /// The process table must be dumped (control-P).
    pub procdump: bool,
    /// The machine must be reset (control-Z).
    pub reboot: bool,
}

/// What `consoleintr` does with character `c`: `i0` before, `i1` after,
/// `ev` what it leaves to be done.
pub open spec fn consoleintr_effect(i0: Input, i1: Input, c: i32, ev: ConsoleEvents) -> bool {
    &&& i1.wf()
    &&& i1.r == i0.r
    &&& ev.reboot == ((c as u8) == 0x1A)
    &&& ev.procdump == ((c as u8) == 0x10)
    &&& (c as u8) == 0x1A || (c as u8) == 0x10 ==> i1.buf@ == i0.buf@ && i1.w == i0.w && i1.e == i0.e
        && ev.echo@.len() == 0 && !ev.wakeup
    &&& (c as u8) == 0x15 ==> ({
        let e1 = i1.e;
        &&& i1.buf@ == i0.buf@
        &&& i1.w == i0.w
        &&& i0.w <= e1 <= i0.e
        &&& (e1 == i0.w || i0.at(e1 - 1) == 10u8)
        &&& forall|q: int| e1 <= q < i0.e ==> #[trigger] i0.at(q) != 10u8
        &&& ev.echo@ == Seq::new((i0.e - e1) as nat, |i: int| BACKSPACE)
        &&& !ev.wakeup
    })
    &&& (c as u8) == 0x08 || (c as u8) == 0x7f ==> i1.buf@ == i0.buf@ && i1.w == i0.w && !ev.wakeup && if i0.e
        != i0.w {
        i1.e == i0.e - 1 && ev.echo@ == seq![BACKSPACE]
    } else {
        i1.e == i0.e && ev.echo@.len() == 0
    }
    &&& !((c as u8) == 0x1A || (c as u8) == 0x10 || (c as u8) == 0x15 || (c as u8) == 0x08 || (c as u8) == 0x7f)
        ==> if c != 0 && i0.e - i0.r < INPUT_BUF {
        let ch: i32 = if c == 13 { 10 } else { c };
        &&& i1.buf@ == i0.buf@.update(i0.e as int % INPUT_BUF as int, ch as u8)
        &&& i1.e == i0.e + 1
        &&& ev.echo@ == seq![ch]
        &&& ev.wakeup == (ch == 10 || ch == 4 || i0.e + 1 == i0.r + INPUT_BUF)
        &&& i1.w == if ev.wakeup { i0.e + 1 } else { i0.w as int }
    } else {
        i1.buf@ == i0.buf@ && i1.w == i0.w && i1.e == i0.e && ev.echo@.len() == 0 && !ev.wakeup
    }
}

/// Handles one character `c` from the keyboard or serial line:
/// control-Z resets, control-P dumps the processes, control-U erases the
/// line being edited, control-H and delete erase one character, and any
/// other nonzero character is stored (carriage return as newline) and
/// echoed if the ring has room; a newline, control-D or a full ring makes
/// the edited line ready for reading.
pub fn consoleintr(input: &mut Input, c: i32) -> (ev: ConsoleEvents)
    requires
        old(input).wf(),
        old(input).e < u32::MAX,
        old(input).r + INPUT_BUF <= u32::MAX,
    ensures
        consoleintr_effect(*old(input), *final(input), c, ev),

{
    let mut ev = ConsoleEvents { echo: Vec::new(), wakeup: false, procdump: false, reboot: false };
    let cc = c as u8;
    if cc == 0x1A {
        ev.reboot = true;
    } else if cc == 0x10 {
        ev.procdump = true;
    } else if cc == 0x15 {
        while input.e != input.w && input.buf[((input.e - 1) as usize) % INPUT_BUF] != 10u8
            invariant
                input.wf(),
                input.buf@ == old(input).buf@,
                input.r == old(input).r,
                input.w == old(input).w,
                input.e <= old(input).e,
                forall|q: int| input.e <= q < old(input).e ==> #[trigger] old(input).at(q) != 10u8,
                ev.echo@ == Seq::new((old(input).e - input.e) as nat, |i: int| BACKSPACE),
                !ev.wakeup && !ev.reboot && !ev.procdump,
            decreases input.e,
        {
            input.e = input.e - 1;
            ev.echo.push(BACKSPACE);
            proof {
                assert(ev.echo@ =~= Seq::new((old(input).e - input.e) as nat, |i: int| BACKSPACE));
            }
        }
    } else if cc == 0x08 || cc == 0x7f {
        if input.e != input.w {
            input.e = input.e - 1;
            ev.echo.push(BACKSPACE);
        }
    } else {
        if c != 0 && input.e - input.r < INPUT_BUF as u32 {
            let ch: i32 = if c == 13 {
                10
            } else {
                c
            };
            let pos = (input.e as usize) % INPUT_BUF;
            input.buf.set(pos, ch as u8);
            input.e = input.e + 1;
            ev.echo.push(ch);
            if ch == 10 || ch == 4 || input.e == input.r + INPUT_BUF as u32 {
                input.w = input.e;
                ev.wakeup = true;
            }
        }
    }
    ev
}

/// Outcome of one attempt to read console input.
#[derive(Clone, Copy, PartialEq, Eq, Structural, Debug)]
pub enum ConsoleRead {
    /// The read is complete; this many bytes were read.
    Done(i32),
    /// The ring is empty: the reader must sleep and try again.
    Sleep,
    /// The ring is empty and the reading process was killed: the read fails (-1).
    Killed,
}

/// What `consoleread` does, from ring `i0` to `i1` and from the bytes
/// `d0` read so far to `d1`, for a read of `n` bytes by a process that was
/// killed or not, returning `res`.
pub open spec fn read_effect(i0: Input, i1: Input, d0: Seq<u8>, d1: Seq<u8>, n: usize, killed: bool, res: ConsoleRead) -> bool {
    &&& i1.wf()
    &&& i1.buf@ == i0.buf@
    &&& i1.w == i0.w
    &&& i1.e == i0.e
    &&& d1.len() <= n
    &&& d1.subrange(0, d0.len() as int) == d0
    &&& ({
        let m = d1.len() - d0.len();
        let r0 = i0.r as int;
        &&& forall|i: int|
            0 <= i < m ==> #[trigger] d1[d0.len() + i] == i0.at(r0 + i)
                && i0.at(r0 + i) != 4u8
        &&& forall|i: int| 0 <= i < m - 1 ==> #[trigger] i0.at(r0 + i) != 10u8
        &&& match res {
            ConsoleRead::Done(k) => {
                &&& k == d1.len()
                &&& {
                    ||| (d1.len() == n && i1.r == r0 + m)
                    ||| (m > 0 && i0.at(r0 + m - 1) == 10u8 && i1.r == r0 + m)
                    ||| (r0 + m < i0.w && i0.at(r0 + m) == 4u8 && i1.r == r0 + m
                        + (if d1.len() == 0 { 1int } else { 0int }))
                }
            },
            ConsoleRead::Sleep | ConsoleRead::Killed => {
                &&& i1.r == i0.w
                &&& r0 + m == i0.w
                &&& d1.len() < n
                &&& (m > 0 ==> i0.at(r0 + m - 1) != 10u8)
                &&& (res is Killed) == killed
            },
        }
    })
}

/// `i1` holds the committed input of `i0` unchanged: the read index is the
/// same, the write index has not moved back, and every character from the
/// read index up to `i0`'s write index is as it was.
pub open spec fn keeps_committed(i0: Input, i1: Input) -> bool {
    &&& i1.r == i0.r
    &&& i0.w <= i1.w
    &&& forall|q: int| i0.r <= q < i0.w ==> #[trigger] i1.at(q) == i0.at(q)
}

/// No input character moves the read index or erases or alters committed
/// input: editing (control-U, control-H, delete) stops at the write index,
/// and a stored character goes to a free place of the ring.
pub proof fn lemma_intr_keeps_committed(i0: Input, i1: Input, c: i32, ev: ConsoleEvents)
    requires
        i0.wf(),
        consoleintr_effect(i0, i1, c, ev),
    ensures
        keeps_committed(i0, i1),
{
    assert forall|q: int| i0.r <= q < i0.w implies #[trigger] i1.at(q) == i0.at(q) by {
        if i1.buf@ != i0.buf@ {
            let e = i0.e as int;
            assert(q < e && e - q < INPUT_BUF);
            assert(q % (INPUT_BUF as int) != e % (INPUT_BUF as int));
        }
    }
}

/// Handles the characters a device hands over, as the interrupt handler
/// does with its `getc`: one after another up to the first negative value,
/// which means that none is left.  Returns how many were handled and what
/// each one asks the console to do.
pub fn consoleintr_all(input: &mut Input, cs: &Vec<i32>) -> (r: (usize, Vec<ConsoleEvents>))
    requires
        old(input).wf(),
        old(input).r + INPUT_BUF < u32::MAX,
    ensures
        r.0 <= cs.len(),
        forall|j: int| 0 <= j < r.0 ==> cs@[j] >= 0,
        r.0 < cs.len() ==> cs@[r.0 as int] < 0,
        r.1@.len() == r.0,
        final(input).wf(),
        keeps_committed(*old(input), *final(input)),
        exists|st: Seq<Input>|
            {
                &&& st.len() == r.0 + 1
                &&& st[0] == *old(input)
                &&& st[r.0 as int] == *final(input)
                &&& forall|j: int|
                    0 <= j < r.0 ==> consoleintr_effect(#[trigger] st[j], st[j + 1], cs@[j], r.1@[j])
            },
{
    let mut evs: Vec<ConsoleEvents> = Vec::new();
    let mut k: usize = 0;
    let ghost mut st: Seq<Input> = seq![*input];
    while k < cs.len() && cs[k] >= 0
        invariant
            k <= cs.len(),
            forall|j: int| 0 <= j < k ==> cs@[j] >= 0,
            input.wf(),
            input.r == old(input).r,
            old(input).r + INPUT_BUF < u32::MAX,
            keeps_committed(*old(input), *input),
            evs@.len() == k,
            st.len() == k + 1,
            st[0] == *old(input),
            st[k as int] == *input,
            forall|j: int| 0 <= j < k ==> consoleintr_effect(#[trigger] st[j], st[j + 1], cs@[j], evs@[j]),
        decreases cs.len() - k,
    {
        let ghost before = *input;
        let ev = consoleintr(input, cs[k]);
        proof {
            lemma_intr_keeps_committed(before, *input, cs@[k as int], ev);
            st = st.push(*input);
        }
        evs.push(ev);
        k += 1;
    }
    (k, evs)
}

/// Reads console input for a read of `n` bytes, of which `dst` holds those
/// read so far.  Characters are taken from the ready part of the ring until
/// `n` bytes are read or a newline has been read; control-D ends the read
/// and is consumed only when nothing was read yet.  When the ring runs
/// empty first, the reader must sleep (or fails, if it was killed).
#[verifier::spinoff_prover]
pub fn consoleread(input: &mut Input, dst: &mut Vec<u8>, n: usize, killed: bool) -> (res: ConsoleRead)
    requires
        old(input).wf(),
        old(dst)@.len() <= n,
        n <= i32::MAX,
    ensures
        read_effect(*old(input), *final(input), old(dst)@, final(dst)@, n, killed, res),
{
    let ghost d0 = dst@;
    let ghost r0 = input.r as int;
    while dst.len() < n
        invariant
            input.wf(),
            input.buf@ == old(input).buf@,
            input.w == old(input).w,
            input.e == old(input).e,
            old(input).wf(),
            d0 == old(dst)@,
            r0 == old(input).r,
            d0.len() <= dst@.len() <= n,
            n <= i32::MAX,
            dst@.subrange(0, d0.len() as int) == d0,
            input.r == r0 + (dst@.len() - d0.len()),
            forall|i: int|
                0 <= i < dst@.len() - d0.len() ==> #[trigger] dst@[d0.len() + i] == old(input).at(r0 + i)
                    && old(input).at(r0 + i) != 4u8,
            forall|i: int| 0 <= i < dst@.len() - d0.len() ==> #[trigger] old(input).at(r0 + i) != 10u8,
        decreases n - dst@.len(),
    {
        if input.r == input.w {
            proof {
                let m = dst@.len() - d0.len();
                if m > 0 {
                    assert(old(input).at(r0 + (m - 1)) != 10u8);
                    assert(r0 + (m - 1) == r0 + m - 1);
                }
            }
            if killed {
                return ConsoleRead::Killed;
            }
            return ConsoleRead::Sleep;
        }
        let c = input.buf[(input.r as usize) % INPUT_BUF];
        let ghost k = dst@.len() - d0.len();
        assert(c == old(input).at(r0 + k));
        input.r = input.r + 1;
        if c == 4u8 {
            if dst.len() > 0 {
                input.r = input.r - 1;
            }
            return ConsoleRead::Done(dst.len() as i32);
        }
        let ghost before = dst@;
        dst.push(c);
        proof {
            assert(dst@.subrange(0, d0.len() as int) =~= d0);
            assert(dst@[d0.len() + k] == old(input).at(r0 + k));
            assert forall|i: int| 0 <= i < dst@.len() - d0.len() implies #[trigger] dst@[d0.len() + i] == old(input).at(r0 + i)
                && old(input).at(r0 + i) != 4u8 by {
                if i < k {
                    assert(dst@[d0.len() + i] == before[d0.len() + i]);
                }
            }
            assert(old(input).at(r0 + (k + 1) - 1) == c);
        }
        if c == 10u8 {
            return ConsoleRead::Done(dst.len() as i32);
        }
    }
    ConsoleRead::Done(dst.len() as i32)
}

/// A plain character: a byte stored and echoed as it is, which neither
/// edits the line nor ends it.
pub open spec fn plain_char(c: i32) -> bool {
    &&& 0 < c < 256
    &&& c != 13 && c != 10 && c != 4
    &&& c != 0x1A && c != 0x10 && c != 0x15 && c != 0x08 && c != 0x7f
}

/// Ring positions `a + j` and `a + k` of the first `INPUT_BUF` after `a`
/// are different slots.
proof fn lemma_slots_differ(a: int, j: int, k: int)
    requires
        0 <= a,
        0 <= j < k < INPUT_BUF,
    ensures
        (a + j) % (INPUT_BUF as int) != (a + k) % (INPUT_BUF as int),
{
    vstd::arithmetic::div_mod::lemma_fundamental_div_mod(a + j, INPUT_BUF as int);
    vstd::arithmetic::div_mod::lemma_fundamental_div_mod(a + k, INPUT_BUF as int);
    if (a + j) % (INPUT_BUF as int) == (a + k) % (INPUT_BUF as int) {
        assert((a + k) / (INPUT_BUF as int) > (a + j) / (INPUT_BUF as int));
        assert(INPUT_BUF * ((a + k) / (INPUT_BUF as int)) >= INPUT_BUF * ((a + j) / (INPUT_BUF as int)) + INPUT_BUF)
            by (nonlinear_arith)
            requires
                (a + k) / (INPUT_BUF as int) > (a + j) / (INPUT_BUF as int),
        ;
    }
}

/// After the first `k` plain characters of `line` are typed into a ring
/// with nothing pending, they are being edited at their places after the
/// read position, and nothing is ready yet.
proof fn lemma_typed_prefix(states: Seq<Input>, evs: Seq<ConsoleEvents>, line: Seq<i32>, k: int)
    requires
        0 <= k <= line.len(),
        states.len() >= line.len() + 1,
        evs.len() >= line.len(),
        states[0].wf(),
        states[0].r == states[0].w && states[0].w == states[0].e,
        line.len() + 1 <= INPUT_BUF,
        forall|j: int| 0 <= j < line.len() ==> #[trigger] plain_char(line[j]),
        forall|j: int| 0 <= j < line.len() ==> #[trigger] consoleintr_effect(states[j], states[j + 1], line[j], evs[j]),
    ensures
        states[k].wf(),
        states[k].r == states[0].r,
        states[k].w == states[0].r,
        states[k].e == states[0].r + k,
        forall|j: int| 0 <= j < k ==> #[trigger] states[k].at(states[0].r + j) == line[j] as u8,
    decreases k,
{
    if k > 0 {
        lemma_typed_prefix(states, evs, line, k - 1);
        let s0 = states[k - 1];
        let s1 = states[k];
        let c = line[k - 1];
        let r0 = states[0].r as int;
        assert(plain_char(c));
        let j0 = k - 1;
        assert(consoleintr_effect(states[j0], states[j0 + 1], line[j0], evs[j0]));
        assert(j0 + 1 == k);
        assert((c as u8) == c);
        assert forall|j: int| 0 <= j < k implies #[trigger] s1.at(r0 + j) == line[j] as u8 by {
            if j < k - 1 {
                lemma_slots_differ(r0, j, k - 1);
                assert(s0.at(r0 + j) == line[j] as u8);
            }
        }
    }
}

/// Typing a line, its plain characters and then a newline, into a ring
/// with nothing pending and room for the line makes exactly that line the
/// ready input: each character at its place after the read position, the
/// newline last.
pub proof fn lemma_typed_line_ready(states: Seq<Input>, evs: Seq<ConsoleEvents>, line: Seq<i32>)
    requires
        states.len() == line.len() + 2,
        evs.len() == line.len() + 1,
        states[0].wf(),
        states[0].r == states[0].w && states[0].w == states[0].e,
        line.len() + 1 <= INPUT_BUF,
        forall|j: int| 0 <= j < line.len() ==> #[trigger] plain_char(line[j]),
        forall|j: int| 0 <= j < line.len() ==> #[trigger] consoleintr_effect(states[j], states[j + 1], line[j], evs[j]),
        consoleintr_effect(states[line.len() as int], states[line.len() as int + 1], 10, evs[line.len() as int]),
    ensures
        ({
            let s = states[line.len() as int + 1];
            let r0 = states[0].r as int;
            &&& s.wf()
            &&& s.r == r0
            &&& s.w == r0 + line.len() + 1
            &&& s.e == s.w
            &&& forall|j: int| 0 <= j < line.len() ==> #[trigger] s.at(r0 + j) == line[j] as u8
            &&& s.at(r0 + line.len()) == 10u8
        }),
{
    let k = line.len() as int;
    lemma_typed_prefix(states, evs, line, k);
    let s0 = states[k];
    let s1 = states[k + 1];
    let r0 = states[0].r as int;
    assert forall|j: int| 0 <= j < k implies #[trigger] s1.at(r0 + j) == line[j] as u8 by {
        lemma_slots_differ(r0, j, k);
        assert(s0.at(r0 + j) == line[j] as u8);
    }
}

/// Reading a ready line: when the ready input is a line (characters none
/// of which is a newline or control-D, then a newline) and the read asks
/// for at least its length, the read returns exactly the line and
/// consumes it.
pub proof fn lemma_read_line(i0: Input, i1: Input, d1: Seq<u8>, n: usize, killed: bool, res: ConsoleRead)
    requires
        i0.wf(),
        i0.w > i0.r,
        i0.at(i0.w - 1) == 10u8,
        forall|j: int| i0.r <= j < i0.w - 1 ==> #[trigger] i0.at(j) != 10u8 && i0.at(j) != 4u8,
        n >= i0.w - i0.r,
        read_effect(i0, i1, Seq::empty(), d1, n, killed, res),
    ensures
        res == ConsoleRead::Done((i0.w - i0.r) as i32),
        d1 == Seq::new((i0.w - i0.r) as nat, |j: int| i0.at(i0.r + j)),
        i1.r == i0.w,
{
    let r0 = i0.r as int;
    let len = i0.w - i0.r;
    let m = d1.len() as int;
    assert(d1.subrange(0, 0) =~= Seq::<u8>::empty());
    if m > len {
        assert(i0.at(r0 + (len - 1)) != 10u8);
    }
    if m < len {
        match res {
            ConsoleRead::Done(k) => {
                if m > 0 && i0.at(r0 + m - 1) == 10u8 {
                    assert(i0.at(r0 + (m - 1)) != 10u8);
                }
                if r0 + m < i0.w && i0.at(r0 + m) == 4u8 {
                    if m < len - 1 {
                        assert(i0.at(r0 + m) != 4u8);
                    }
                }
            },
            _ => {},
        }
    }
    if m == len {
        match res {
            ConsoleRead::Done(k) => {},
            _ => {
                assert(i0.at(r0 + m - 1) == 10u8);
            },
        }
    }
    assert(d1 =~= Seq::new(len as nat, |j: int| i0.at(i0.r + j))) by {
        assert forall|j: int| 0 <= j < len implies d1[j] == i0.at(i0.r + j) by {
            assert(d1[0 + j] == i0.at(r0 + j));
        }
    }
}

/// What is typed is what is read: after a line of plain characters and a
/// newline is typed into a ring with nothing pending, a read asking for at
/// least that many bytes returns the line and the newline.
pub proof fn lemma_typed_line_is_read(
    states: Seq<Input>,
    evs: Seq<ConsoleEvents>,
    line: Seq<i32>,
    i2: Input,
    d1: Seq<u8>,
    n: usize,
    killed: bool,
    res: ConsoleRead,
)
    requires
        states.len() == line.len() + 2,
        evs.len() == line.len() + 1,
        states[0].wf(),
        states[0].r == states[0].w && states[0].w == states[0].e,
        line.len() + 1 <= INPUT_BUF,
        forall|j: int| 0 <= j < line.len() ==> #[trigger] plain_char(line[j]),
        forall|j: int| 0 <= j < line.len() ==> #[trigger] consoleintr_effect(states[j], states[j + 1], line[j], evs[j]),
        consoleintr_effect(states[line.len() as int], states[line.len() as int + 1], 10, evs[line.len() as int]),
        n >= line.len() + 1,
        read_effect(states[line.len() as int + 1], i2, Seq::empty(), d1, n, killed, res),
    ensures
        res == ConsoleRead::Done((line.len() + 1) as i32),
        d1 == line.map_values(|c: i32| c as u8).push(10u8),
{
    lemma_typed_line_ready(states, evs, line);
    let s = states[line.len() as int + 1];
    let r0 = states[0].r as int;
    assert forall|j: int| s.r <= j < s.w - 1 implies #[trigger] s.at(j) != 10u8 && s.at(j) != 4u8 by {
        assert(s.at(r0 + (j - r0)) == line[j - r0] as u8);
        assert(plain_char(line[j - r0]));
    }
    lemma_read_line(s, i2, d1, n, killed, res);
    assert(d1 =~= line.map_values(|c: i32| c as u8).push(10u8)) by {
        assert forall|j: int| 0 <= j < line.len() implies d1[j] == line[j] as u8 by {
            assert(s.at(s.r + j) == line[j] as u8);
        }
        assert(d1[line.len() as int] == s.at(s.r + line.len()));
    }
}

/// Text-screen cell for character `c`: its low byte in grey on black.
pub open spec fn cell(c: i32) -> u16 {
    (((c as u16) & 0xff) | 0x0700) as u16
}

/// The 80x25 text screen `s` with its cursor at `pos`, after character
/// `c` is put there, and the new cursor position.  A newline moves to the
/// start of the next row, a backspace moves back one cell, any other
/// character is written at the cursor.  When the cursor reaches the last
/// row, rows 1 to 23 move up one row (the last two rows keep their
/// contents) and the cursor moves up one row.  Finally a blank is written
/// at the cursor.
pub open spec fn cga_step(s: Seq<u16>, pos: int, c: i32) -> (Seq<u16>, int) {
    let p1: int = if c == 10 {
        pos + 80 - pos % 80
    } else if c == BACKSPACE {
        if pos > 0 { pos - 1 } else { pos }
    } else {
        pos + 1
    };
    let s1 = if c == 10 || c == BACKSPACE {
        s
    } else {
        s.update(pos, cell(c))
    };
    let scroll = p1 / 80 >= 24;
    let s2 = if scroll {
        Seq::new(CRT_CELLS as nat, |i: int| if i < 23 * 80 { s1[i + 80] } else { s1[i] })
    } else {
        s1
    };
    let p2 = if scroll { p1 - 80 } else { p1 };
    (s2.update(p2, cell(32)), p2)
}

/// Putting a character keeps the screen's size and the cursor on its
/// first 24 rows.
pub proof fn lemma_cga_step_bounds(s: Seq<u16>, pos: int, c: i32)
    requires
        s.len() == CRT_CELLS,
        0 <= pos < 1920,
    ensures
        cga_step(s, pos, c).0.len() == CRT_CELLS,
        0 <= cga_step(s, pos, c).1 < 1920,
{
}

/// A screen cell shows the low byte of its character in attribute 7.
proof fn lemma_cell_bits(x: u16)
    by (bit_vector)
    ensures
        ((x & 0xff) | 0x0700) % 256 == x % 256,
        ((x & 0xff) | 0x0700) / 256 == 7,
{
}

/// What putting a character does to the screen, with the cursor at `pos`
/// (on the first 24 rows).  Afterwards the cell under the cursor is always
/// blank (a space, 0x20, in attribute 7: 0x0720).  A backspace moves the
/// cursor back one cell, unless it is at the start, so the character
/// before it is erased.  A newline moves to the start of the next row.  Any
/// other character `c` (a code below 0x10000) is shown at the cursor, its
/// low byte in attribute 7, and the cursor moves one cell on.  Unless the
/// screen scrolls (the cursor reaching row 24), no other cell changes.
pub proof fn lemma_cga_step_effect(s: Seq<u16>, pos: int, c: i32)
    requires
        s.len() == CRT_CELLS,
        0 <= pos < 1920,
    ensures
        ({
            let (t, q) = cga_step(s, pos, c);
            &&& t[q] == 0x0720
            &&& c == 0x100 ==> q == (if pos > 0 { pos - 1 } else { 0 })
            &&& c == 10 && pos / 80 < 23 ==> q == (pos / 80 + 1) * 80
            &&& c != 10 && c != 0x100 && pos + 1 < 1920 ==> q == pos + 1 && (0 <= c < 0x10000 ==> t[pos] % 256
                == c % 256 && t[pos] / 256 == 7)
            &&& (c == 0x100 || (c != 10 && pos + 1 < 1920) || (c == 10 && pos / 80 < 23)) ==> forall|j: int|
                0 <= j < CRT_CELLS && j != q && j != pos ==> #[trigger] t[j] == s[j]
        }),
{
    lemma_cell_bits(32u16);
    lemma_cell_bits(c as u16);
    assert(cell(32) == 0x0720);
}

/// Puts character `c` on the text screen `screen` whose cursor is at
/// `pos`, and returns the new cursor position (see `cga_step`).
pub fn cgaputc(screen: &mut Vec<u16>, pos: i32, c: i32) -> (r: i32)
    requires
        old(screen)@.len() == CRT_CELLS,
        0 <= pos < 1920,
    ensures
        final(screen)@.len() == CRT_CELLS,
        0 <= r < 1920,
        (final(screen)@, r as int) == cga_step(old(screen)@, pos as int, c),
{
    let mut p: i32 = pos;
    if c == 10 {
        p = p + 80 - p % 80;
    } else if c == BACKSPACE {
        if p > 0 {
            p = p - 1;
        }
    } else {
        screen.set(p as usize, ((c as u16) & 0xff) | 0x0700);
    }
    if c != 10 && c != BACKSPACE {
        p = p + 1;
    }
    if p / 80 >= 24 {
        let ghost s1 = screen@;
        let mut i: usize = 0;
        while i < 23 * 80
            invariant
                screen@.len() == CRT_CELLS,
                s1.len() == CRT_CELLS,
                i <= 23 * 80,
                forall|k: int| 0 <= k < i ==> screen@[k] == s1[k + 80],
                forall|k: int| i <= k < CRT_CELLS ==> screen@[k] == s1[k],
            decreases 23 * 80 - i,
        {
            let v = screen[i + 80];
            screen.set(i, v);
            i += 1;
        }
        proof {
            assert(screen@ =~= Seq::new(CRT_CELLS as nat, |k: int| if k < 23 * 80 { s1[k + 80] } else { s1[k] }));
        }
        p = p - 80;
    }
    screen.set(p as usize, 32u16 | 0x0700);
    proof {
        assert((32u16 | 0x0700u16) == (((32i32 as u16) & 0xffu16) | 0x0700u16)) by (bit_vector);
    }
    p
}

/// What the serial line gets for character `c`: a backspace as back,
/// blank, back, which erases the character there; any other as its low
/// byte.
pub open spec fn uart_out(c: i32) -> Seq<u8> {
    if c == BACKSPACE {
        seq![8u8, 32u8, 8u8]
    } else {
        seq![c as u8]
    }
}

/// The serial line gets a backspace as back, space, back (erasing the
/// character on a terminal), and any other character as its low byte.
/// Writing bytes to the console sends every byte to the serial line
/// unchanged, in order.
pub proof fn lemma_uart_output(c: i32, bytes: Seq<u8>)
    ensures
        c == 0x100 ==> uart_out(c) == seq![0x08u8, 0x20u8, 0x08u8],
        0 <= c < 0x100 ==> uart_out(c) == seq![c as u8],
        uart_write(bytes) == bytes,
    decreases bytes.len(),
{
    if bytes.len() > 0 {
        lemma_uart_output(c, bytes.drop_last());
        assert(bytes.drop_last().push(bytes.last()) =~= bytes);
    }
}

/// Writes character `c` to the console: to the serial line, whose output
/// so far is `uart`, and to the text screen `screen` with its cursor at
/// `pos`.  Returns the new cursor position.
pub fn consputc(screen: &mut Vec<u16>, pos: i32, uart: &mut Vec<u8>, c: i32) -> (r: i32)
    requires
        old(screen)@.len() == CRT_CELLS,
        0 <= pos < 1920,
    ensures
        final(uart)@ == old(uart)@ + uart_out(c),
        final(screen)@.len() == CRT_CELLS,
        0 <= r < 1920,
        (final(screen)@, r as int) == cga_step(old(screen)@, pos as int, c),
{
    if c == BACKSPACE {
        uart.push(8u8);
        uart.push(32u8);
        uart.push(8u8);
    } else {
        uart.push(c as u8);
    }
    proof {
        assert(uart@ =~= old(uart)@ + uart_out(c));
    }
    cgaputc(screen, pos, c)
}

/// The screen and cursor after writing `bytes` one by one from screen `s`
/// with cursor `pos`.
pub open spec fn cga_write(s: Seq<u16>, pos: int, bytes: Seq<u8>) -> (Seq<u16>, int)
    decreases bytes.len(),
{
    if bytes.len() == 0 {
        (s, pos)
    } else {
        let p = cga_write(s, pos, bytes.drop_last());
        cga_step(p.0, p.1, bytes.last() as i32)
    }
}

/// What the serial line gets for `bytes`.
pub open spec fn uart_write(bytes: Seq<u8>) -> Seq<u8>
    decreases bytes.len(),
{
    if bytes.len() == 0 {
        Seq::empty()
    } else {
        uart_write(bytes.drop_last()) + uart_out(bytes.last() as i32)
    }
}

/// Writing bytes keeps the screen's size and the cursor on its first 24
/// rows.
pub proof fn lemma_cga_write_bounds(s: Seq<u16>, pos: int, bytes: Seq<u8>)
    requires
        s.len() == CRT_CELLS,
        0 <= pos < 1920,
    ensures
        cga_write(s, pos, bytes).0.len() == CRT_CELLS,
        0 <= cga_write(s, pos, bytes).1 < 1920,
    decreases bytes.len(),
{
    if bytes.len() > 0 {
        lemma_cga_write_bounds(s, pos, bytes.drop_last());
        let p = cga_write(s, pos, bytes.drop_last());
        lemma_cga_step_bounds(p.0, p.1, bytes.last() as i32);
    }
}

/// Writes the first `n` bytes of `buf` (all of it when it is shorter) to
/// the console: the serial line, whose output so far is `uart`, and the
/// text screen `screen` with its cursor at `pos`.  Returns `n`.
pub fn consolewrite(screen: &mut Vec<u16>, pos: &mut i32, uart: &mut Vec<u8>, buf: &Vec<u8>, n: usize) -> (r: i32)
    requires
        old(screen)@.len() == CRT_CELLS,
        0 <= *old(pos) < 1920,
    ensures
        ({
            let k = if n < buf@.len() { n as int } else { buf@.len() as int };
            let bytes = buf@.take(k);
            &&& (final(screen)@, *final(pos) as int) == cga_write(old(screen)@, *old(pos) as int, bytes)
            &&& final(uart)@ == old(uart)@ + uart_write(bytes)
            &&& final(screen)@.len() == CRT_CELLS
            &&& 0 <= *final(pos) < 1920
            &&& r == n as i32
        }),
{
    let k: usize = if n < buf.len() { n } else { buf.len() };
    let mut i: usize = 0;
    while i < k
        invariant
            k <= buf@.len(),
            i <= k,
            screen@.len() == CRT_CELLS,
            0 <= *pos < 1920,
            (screen@, *pos as int) == cga_write(old(screen)@, *old(pos) as int, buf@.take(i as int)),
            uart@ == old(uart)@ + uart_write(buf@.take(i as int)),
        decreases k - i,
    {
        let c = buf[i] as i32;
        let p = consputc(screen, *pos, uart, c);
        *pos = p;
        proof {
            let t = buf@.take(i + 1);
            assert(t.drop_last() =~= buf@.take(i as int));
            assert(t.last() == buf@[i as int]);
            assert(uart@ =~= old(uart)@ + uart_write(t));
        }
        i += 1;
    }
    n as i32
}

} // verus!
