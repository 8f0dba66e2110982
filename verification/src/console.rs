//! Console output as data: the operations a command performs on the screen,
//! their effect on the screen model, and the text helpers commands use
//! (splitting into words, joining, decimal numbers).
use vstd::prelude::*;
use crate::vga::{Color, Screen, VGA};
use crate::text::{push_char, string_of};

verus! {

/// One console operation.
pub enum ConsoleOp {
    Write(String),
    Println(String),
    SetColor(Color, Color),
    Clear,
    PutChar(char),
    Backspace,
}

/// Abstract console operation.
pub enum Out {
    Write(Seq<char>),
    Println(Seq<char>),
    SetColor(Color, Color),
    Clear,
    PutChar(char),
    Backspace,
}

impl ConsoleOp {
    pub open spec fn view(&self) -> Out {
        match self {
            ConsoleOp::Write(s) => Out::Write(s@),
            ConsoleOp::Println(s) => Out::Println(s@),
            ConsoleOp::SetColor(f, b) => Out::SetColor(*f, *b),
            ConsoleOp::Clear => Out::Clear,
            ConsoleOp::PutChar(c) => Out::PutChar(*c),
            ConsoleOp::Backspace => Out::Backspace,
        }
    }
}

/// Abstract view of a list of operations.
pub open spec fn outs_view(v: Seq<ConsoleOp>) -> Seq<Out> {
    v.map_values(|o: ConsoleOp| o@)
}

pub proof fn lemma_outs_view(v: Seq<ConsoleOp>)
    ensures
        outs_view(v).len() == v.len(),
        forall|i: int| 0 <= i < v.len() ==> #[trigger] outs_view(v)[i] == v[i]@,
{
}

/// The screen after one operation.
pub open spec fn apply_out(s: Screen, o: Out) -> Screen {
    match o {
        Out::Write(t) => s.write(t),
        Out::Println(t) => s.println(t),
        Out::SetColor(f, b) => s.with_colors(f, b),
        Out::Clear => s.cleared(),
        Out::PutChar(c) => s.put_char(c),
        Out::Backspace => s.backspace(),
    }
}

/// The screen after the operations, in order.
pub open spec fn apply_outs(s: Screen, outs: Seq<Out>) -> Screen
    decreases outs.len(),
{
    if outs.len() == 0 {
        s
    } else {
        apply_out(apply_outs(s, outs.drop_last()), outs.last())
    }
}

/// Performs the operations on the console.
pub fn show(vga: &mut VGA, ops: &Vec<ConsoleOp>)
    requires
        old(vga).inv(),
    ensures
        final(vga).inv(),
        final(vga)@ == apply_outs(old(vga)@, outs_view(ops@)),
{
    let ghost ov = outs_view(ops@);
    proof {
        lemma_outs_view(ops@);
    }
    assert(ov.take(0) =~= Seq::<Out>::empty());
    for i in 0..ops.len()
        invariant
            vga.inv(),
            ov == outs_view(ops@),
            ov.len() == ops@.len(),
            forall|k: int| 0 <= k < ops@.len() ==> #[trigger] ov[k] == ops@[k]@,
            vga@ == apply_outs(old(vga)@, ov.take(i as int)),
    {
        assert(ov.take(i + 1).drop_last() =~= ov.take(i as int));
        assert(ov.take(i + 1).last() == ops@[i as int]@);
        match &ops[i] {
            ConsoleOp::Write(s) => vga.write(s.as_str()),
            ConsoleOp::Println(s) => vga.println(s.as_str()),
            ConsoleOp::SetColor(f, b) => vga.set_color(*f, *b),
            ConsoleOp::Clear => vga.clear(),
            ConsoleOp::PutChar(c) => vga.put_char(*c),
            ConsoleOp::Backspace => vga.backspace(),
        }
    }
    assert(ov.take(ov.len() as int) =~= ov);
}

/// Appends a line of text.
pub fn emit_line(out: &mut Vec<ConsoleOp>, text: &str)
    ensures
        outs_view(final(out)@) == outs_view(old(out)@).push(Out::Println(text@)),
{
    out.push(ConsoleOp::Println(text.to_owned()));
    proof {
        lemma_outs_view(out@);
        lemma_outs_view(old(out)@);
    }
    assert(outs_view(out@) =~= outs_view(old(out)@).push(Out::Println(text@)));
}

/// Appends text without a line break.
pub fn emit_text(out: &mut Vec<ConsoleOp>, text: &str)
    ensures
        outs_view(final(out)@) == outs_view(old(out)@).push(Out::Write(text@)),
{
    out.push(ConsoleOp::Write(text.to_owned()));
    proof {
        lemma_outs_view(out@);
        lemma_outs_view(old(out)@);
    }
    assert(outs_view(out@) =~= outs_view(old(out)@).push(Out::Write(text@)));
}

/// Appends a color change.
pub fn emit_color(out: &mut Vec<ConsoleOp>, fg: Color, bg: Color)
    ensures
        outs_view(final(out)@) == outs_view(old(out)@).push(Out::SetColor(fg, bg)),
{
    out.push(ConsoleOp::SetColor(fg, bg));
    proof {
        lemma_outs_view(out@);
        lemma_outs_view(old(out)@);
    }
    assert(outs_view(out@) =~= outs_view(old(out)@).push(Out::SetColor(fg, bg)));
}

/// Appends an operation.
pub fn emit(out: &mut Vec<ConsoleOp>, op: ConsoleOp)
    ensures
        outs_view(final(out)@) == outs_view(old(out)@).push(op@),
{
    let ghost v = op@;
    out.push(op);
    proof {
        lemma_outs_view(out@);
        lemma_outs_view(old(out)@);
    }
    assert(outs_view(out@) =~= outs_view(old(out)@).push(v));
}

/// Whether `c` is white space (the Unicode White_Space characters).
pub open spec fn is_white(c: char) -> bool {
    ||| c == ' '
    ||| '\t' <= c <= '\r'
    ||| c == '\u{85}'
    ||| c == '\u{a0}'
    ||| c == '\u{1680}'
    ||| '\u{2000}' <= c <= '\u{200a}'
    ||| c == '\u{2028}'
    ||| c == '\u{2029}'
    ||| c == '\u{202f}'
    ||| c == '\u{205f}'
    ||| c == '\u{3000}'
}

/// Whether `c` is white space.
pub fn white(c: char) -> (r: bool)
    ensures
        r == is_white(c),
{
    c == ' ' || ('\t' <= c && c <= '\r') || c == '\u{85}' || c == '\u{a0}' || c == '\u{1680}' || ('\u{2000}' <= c
        && c <= '\u{200a}') || c == '\u{2028}' || c == '\u{2029}' || c == '\u{202f}' || c == '\u{205f}' || c
        == '\u{3000}'
}

/// The finished words of `s` and the word still being read.
pub open spec fn words_state(s: Seq<char>) -> (Seq<Seq<char>>, Seq<char>)
    decreases s.len(),
{
    if s.len() == 0 {
        (Seq::empty(), Seq::empty())
    } else {
        let (done, cur) = words_state(s.drop_last());
        let c = s.last();
        if is_white(c) {
            if cur.len() > 0 { (done.push(cur), Seq::empty()) } else { (done, Seq::empty()) }
        } else {
            (done, cur.push(c))
        }
    }
}

/// The maximal runs of non-white characters of `s`, in order.
pub open spec fn words(s: Seq<char>) -> Seq<Seq<char>> {
    let (done, cur) = words_state(s);
    if cur.len() > 0 { done.push(cur) } else { done }
}

/// The words of `s`.
pub fn split_words(s: &str) -> (r: Vec<String>)
    ensures
        crate::fs::segs_view(r@) == words(s@),
{
    let chars = crate::text::chars_of(s);
    let mut done: Vec<String> = Vec::new();
    let mut cur: Vec<char> = Vec::new();
    assert(chars@.take(0) =~= Seq::<char>::empty());
    for i in 0..chars.len()
        invariant
            words_state(chars@.take(i as int)) == (crate::fs::segs_view(done@), cur@),
    {
        let c = chars[i];
        assert(chars@.take(i + 1).drop_last() =~= chars@.take(i as int));
        let ghost before = done@;
        if white(c) {
            if cur.len() > 0 {
                let w = string_of(cur.as_slice());
                done.push(w);
                proof {
                    crate::fs::lemma_segs_view(done@);
                    crate::fs::lemma_segs_view(before);
                }
                assert(crate::fs::segs_view(done@) =~= crate::fs::segs_view(before).push(cur@));
            }
            cur = Vec::new();
        } else {
            cur.push(c);
        }
    }
    assert(chars@.take(chars@.len() as int) =~= chars@);
    if cur.len() > 0 {
        let ghost before = done@;
        let w = string_of(cur.as_slice());
        done.push(w);
        proof {
            crate::fs::lemma_segs_view(done@);
            crate::fs::lemma_segs_view(before);
        }
        assert(crate::fs::segs_view(done@) =~= crate::fs::segs_view(before).push(cur@));
    }
    done
}

/// The words joined with single spaces.
pub open spec fn joined_words(ws: Seq<Seq<char>>) -> Seq<char>
    decreases ws.len(),
{
    if ws.len() == 0 {
        Seq::empty()
    } else if ws.len() == 1 {
        ws[0]
    } else {
        joined_words(ws.drop_last()) + seq![' '] + ws.last()
    }
}

/// The words `ws[from..]` joined with single spaces.
pub fn join_words(ws: &[String], from: usize) -> (r: String)
    requires
        from <= ws@.len(),
    ensures
        r@ == joined_words(crate::fs::segs_view(ws@).skip(from as int)),
{
    let ghost sv = crate::fs::segs_view(ws@);
    proof {
        crate::fs::lemma_segs_view(ws@);
    }
    let mut s = String::new();
    assert(sv.subrange(from as int, from as int) =~= Seq::<Seq<char>>::empty());
    for i in from..ws.len()
        invariant
            sv == crate::fs::segs_view(ws@),
            sv.len() == ws@.len(),
            forall|k: int| 0 <= k < ws@.len() ==> #[trigger] sv[k] == ws@[k]@,
            s@ == joined_words(sv.subrange(from as int, i as int)),
    {
        let ghost part = sv.subrange(from as int, i + 1);
        assert(part.drop_last() =~= sv.subrange(from as int, i as int));
        if i > from {
            push_char(&mut s, ' ');
        } else {
            assert(part =~= seq![sv[i as int]]);
        }
        crate::text::push_text(&mut s, ws[i].as_str());
    }
    assert(sv.subrange(from as int, sv.len() as int) =~= sv.skip(from as int));
    s
}

/// Decimal digits of `n`, most significant first, without leading zeros ("0" for zero).
pub open spec fn decimal(n: nat) -> Seq<char>
    decreases n,
{
    if n < 10 {
        seq![(('0' as u8) + n) as char]
    } else {
        decimal(n / 10) + seq![(('0' as u8) + n % 10) as char]
    }
}

/// The decimal text of `n`.
pub fn decimal_string(n: u64) -> (r: String)
    ensures
        r@ == decimal(n as nat),
{
    let mut digits: Vec<char> = Vec::new();
    let mut temp = n;
    let ghost mut tail: Seq<char> = Seq::empty();
    while temp >= 10
        invariant
            decimal(n as nat) == decimal(temp as nat) + digits@.reverse(),
        decreases temp,
    {
        let d = (temp % 10) as u8;
        let ghost prev = digits@;
        digits.push(((48u8 + d) as char));
        assert(digits@.reverse() =~= seq![((48u8 + d) as char)] + prev.reverse());
        assert(decimal(temp as nat) == decimal((temp / 10) as nat) + seq![(('0' as u8) + temp % 10) as char]);
        temp = temp / 10;
    }
    let ghost prev = digits@;
    digits.push(((48u8 + temp as u8) as char));
    assert(digits@.reverse() =~= seq![((48u8 + temp as u8) as char)] + prev.reverse());
    let mut s = String::new();
    let mut j = digits.len();
    let ghost all = digits@.reverse();
    assert(decimal(n as nat) =~= all);
    while j > 0
        invariant
            j <= digits@.len(),
            all == digits@.reverse(),
            s@ == all.subrange(0, (digits@.len() - j) as int),
        decreases j,
    {
        j = j - 1;
        push_char(&mut s, digits[j]);
        assert(all[(digits@.len() - j - 1) as int] == digits@[j as int]);
        assert(s@ =~= all.subrange(0, (digits@.len() - j) as int));
    }
    assert(all.subrange(0, all.len() as int) =~= all);
    s
}

} // verus!
