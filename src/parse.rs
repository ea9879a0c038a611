use vstd::prelude::*;
use crate::instr::Instr;

verus! {

/// Why a line is not an instruction.
#[derive(Clone, Copy, Debug, PartialEq, Eq, Structural)]
pub enum ParseError {
    /// The first word is no known mnemonic.
    UnknownInstruction,
    /// The mnemonic is followed by the wrong number of operands.
    OperandCount,
    /// An operand is not one prefix character followed by a decimal `u32`.
    BadOperand,
}

/// The words of `s` between single spaces, as `str::split(' ')` yields them:
/// consecutive spaces give empty words, and there is always at least one word.
pub open spec fn split_words(s: Seq<char>) -> Seq<Seq<char>>
    decreases s.len(),
{
    if s.len() == 0 {
        seq![Seq::empty()]
    } else {
        let w = split_words(s.drop_last());
        if s.last() == ' ' {
            w.push(Seq::empty())
        } else {
            w.update(w.len() - 1, w.last().push(s.last()))
        }
    }
}

pub proof fn lemma_split_nonempty(s: Seq<char>)
    ensures
        split_words(s).len() >= 1,
    decreases s.len(),
{
    if s.len() > 0 {
        lemma_split_nonempty(s.drop_last());
    }
}

pub open spec fn views(v: Seq<&str>) -> Seq<Seq<char>> {
    v.map_values(|t: &str| t@)
}

/// Splits `s` at every space.
pub fn split_line<'a>(s: &'a str) -> (r: Vec<&'a str>)
    ensures
        views(r@) == split_words(s@),
{
    let n = s.unicode_len();
    let mut words: Vec<&'a str> = Vec::new();
    let mut start: usize = 0;
    let mut i: usize = 0;
    assert(s@.subrange(0, 0) =~= Seq::<char>::empty());
    assert(views(words@).push(s@.subrange(0, 0)) =~= split_words(s@.subrange(0, 0)));
    while i < n
        invariant
            n == s@.len(),
            start <= i <= n,
            views(words@).push(s@.subrange(start as int, i as int)) == split_words(
                s@.subrange(0, i as int),
            ),
        decreases n - i,
    {
        let c = s.get_char(i);
        let ghost pre = s@.subrange(0, i as int);
        let ghost post = s@.subrange(0, i + 1);
        proof {
            assert(post.drop_last() =~= pre);
            assert(post.last() == c);
        }
        if c == ' ' {
            let w = s.substring_char(start, i);
            let ghost before = words@;
            words.push(w);
            assert(views(words@) =~= views(before).push(w@));
            assert(split_words(post) == split_words(pre).push(Seq::<char>::empty()));
            start = i + 1;
            assert(s@.subrange(start as int, i + 1) =~= Seq::<char>::empty());
            assert(views(words@).push(s@.subrange(start as int, i + 1)) =~= split_words(post));
        } else {
            assert(s@.subrange(start as int, i + 1) =~= s@.subrange(start as int, i as int).push(c));
            assert(views(words@).push(s@.subrange(start as int, i + 1)) =~= split_words(post));
        }
        i = i + 1;
    }
    let w = s.substring_char(start, n);
    words.push(w);
    assert(s@.subrange(0, n as int) =~= s@);
    assert(views(words@) =~= split_words(s@));
    words
}

pub open spec fn is_digit(c: char) -> bool {
    '0' <= c && c <= '9'
}

pub open spec fn digit_value(c: char) -> nat {
    (c as u32 - '0' as u32) as nat
}

/// The number that a string of decimal digits writes.
pub open spec fn digits_value(d: Seq<char>) -> nat
    decreases d.len(),
{
    if d.len() == 0 {
        0
    } else {
        digits_value(d.drop_last()) * 10 + digit_value(d.last())
    }
}

pub open spec fn all_digits(d: Seq<char>) -> bool {
    forall|i: int| 0 <= i < d.len() ==> is_digit(#[trigger] d[i])
}

/// An operand: one prefix character (a register or immediate marker), then one or
/// more decimal digits whose value fits in `u32`.
pub open spec fn operand_value(t: Seq<char>) -> Option<u32> {
    let d = t.subrange(1, t.len() as int);
    if t.len() >= 2 && all_digits(d) && digits_value(d) <= u32::MAX {
        Some(digits_value(d) as u32)
    } else {
        None
    }
}

proof fn lemma_digits_prefix(d: Seq<char>, k: int)
    requires
        0 <= k <= d.len(),
    ensures
        digits_value(d.subrange(0, k)) <= digits_value(d),
    decreases d.len(),
{
    if k < d.len() {
        assert(d.drop_last().subrange(0, k) =~= d.subrange(0, k));
        lemma_digits_prefix(d.drop_last(), k);
    } else {
        assert(d.subrange(0, k) =~= d);
    }
}

/// Reads an operand such as `r12` or `#7`.
pub fn parse_operand(t: &str) -> (r: Option<u32>)
    ensures
        r == operand_value(t@),
{
    let n = t.unicode_len();
    if n < 2 {
        return None;
    }
    let ghost d = t@.subrange(1, n as int);
    let mut acc: u64 = 0;
    let mut i: usize = 1;
    while i < n
        invariant
            n == t@.len(),
            d == t@.subrange(1, n as int),
            1 <= i <= n,
            all_digits(t@.subrange(1, i as int)),
            acc == digits_value(t@.subrange(1, i as int)),
            acc <= u32::MAX,
        decreases n - i,
    {
        let c = t.get_char(i);
        let ghost pre = t@.subrange(1, i as int);
        let ghost post = t@.subrange(1, i + 1);
        proof {
            assert(post.drop_last() =~= pre);
            assert(post.last() == c);
        }
        if !('0' <= c && c <= '9') {
            assert(!is_digit(d[i - 1]));
            return None;
        }
        acc = acc * 10 + (c as u32 - '0' as u32) as u64;
        if acc > u32::MAX as u64 {
            proof {
                assert(d.subrange(0, i as int) =~= post);
                lemma_digits_prefix(d, i as int);
            }
            return None;
        }
        i = i + 1;
    }
    assert(t@.subrange(1, i as int) =~= d);
    Some(acc as u32)
}

/// The mnemonics that the parser recognises.
#[derive(Clone, Copy, Debug, PartialEq, Eq, Structural)]
pub enum Mnemonic {
    Mov,
    Movi,
    Addi,
    Subi,
    Add,
    Addr,
    Sub,
    Subr,
}

impl Mnemonic {
    /// How the mnemonic is written.
    pub open spec fn text(self) -> Seq<char> {
        match self {
            Mnemonic::Mov => "mov"@,
            Mnemonic::Movi => "movi"@,
            Mnemonic::Addi => "addi"@,
            Mnemonic::Subi => "subi"@,
            Mnemonic::Add => "add"@,
            Mnemonic::Addr => "addr"@,
            Mnemonic::Sub => "sub"@,
            Mnemonic::Subr => "subr"@,
        }
    }

    /// The number of operands that follow the mnemonic.
    pub open spec fn arity(self) -> nat {
        match self {
            Mnemonic::Mov | Mnemonic::Movi | Mnemonic::Addi | Mnemonic::Subi => 2,
            _ => 3,
        }
    }

    /// The instruction the mnemonic names, over its operand values in order.
    pub open spec fn build(self, ops: Seq<u32>) -> Instr {
        match self {
            Mnemonic::Mov => Instr::Mov(ops[0], ops[1]),
            Mnemonic::Movi => Instr::Movi(ops[0], ops[1]),
            Mnemonic::Addi => Instr::Addi(ops[0], ops[1]),
            Mnemonic::Subi => Instr::Subi(ops[0], ops[1]),
            Mnemonic::Add => Instr::Add(ops[0], ops[1], ops[2]),
            Mnemonic::Addr => Instr::Addr(ops[0], ops[1], ops[2]),
            Mnemonic::Sub => Instr::Sub(ops[0], ops[1], ops[2]),
            Mnemonic::Subr => Instr::Subr(ops[0], ops[1], ops[2]),
        }
    }

    pub fn operand_count(&self) -> (r: usize)
        ensures
            r == self.arity(),
    {
        match *self {
            Mnemonic::Mov | Mnemonic::Movi | Mnemonic::Addi | Mnemonic::Subi => 2,
            _ => 3,
        }
    }

    /// Builds the two-operand instruction that the mnemonic names.
    pub fn string_to_instr(&self, dest: u32, val: u32) -> (r: Instr)
        requires
            self.arity() == 2,
        ensures
            r == self.build(seq![dest, val]),
    {
        match *self {
            Mnemonic::Mov => Instr::Mov(dest, val),
            Mnemonic::Movi => Instr::Movi(dest, val),
            Mnemonic::Addi => Instr::Addi(dest, val),
            _ => Instr::Subi(dest, val),
        }
    }

    /// Builds the three-operand instruction that the mnemonic names.
    pub fn string_to_3arginstr(&self, dest: u32, a: u32, b: u32) -> (r: Instr)
        requires
            self.arity() == 3,
        ensures
            r == self.build(seq![dest, a, b]),
    {
        match *self {
            Mnemonic::Add => Instr::Add(dest, a, b),
            Mnemonic::Addr => Instr::Addr(dest, a, b),
            Mnemonic::Sub => Instr::Sub(dest, a, b),
            _ => Instr::Subr(dest, a, b),
        }
    }
}

/// The mnemonic that a word spells, if any.
pub open spec fn mnemonic_of(w: Seq<char>) -> Option<Mnemonic> {
    if w == Mnemonic::Mov.text() {
        Some(Mnemonic::Mov)
    } else if w == Mnemonic::Movi.text() {
        Some(Mnemonic::Movi)
    } else if w == Mnemonic::Addi.text() {
        Some(Mnemonic::Addi)
    } else if w == Mnemonic::Subi.text() {
        Some(Mnemonic::Subi)
    } else if w == Mnemonic::Add.text() {
        Some(Mnemonic::Add)
    } else if w == Mnemonic::Addr.text() {
        Some(Mnemonic::Addr)
    } else if w == Mnemonic::Sub.text() {
        Some(Mnemonic::Sub)
    } else if w == Mnemonic::Subr.text() {
        Some(Mnemonic::Subr)
    } else {
        None
    }
}

/// The instruction that a line's words write: a mnemonic, then exactly as many
/// operands as it takes.
pub open spec fn decode_words(w: Seq<Seq<char>>) -> Result<Instr, ParseError> {
    if w.len() == 0 || mnemonic_of(w[0]) is None {
        Err(ParseError::UnknownInstruction)
    } else {
        let m = mnemonic_of(w[0])->Some_0;
        if w.len() != m.arity() + 1 {
            Err(ParseError::OperandCount)
        } else if forall|i: int| 1 <= i < w.len() ==> (#[trigger] operand_value(w[i])) is Some {
            Ok(m.build(Seq::new(m.arity(), |j: int| operand_value(w[j + 1])->Some_0)))
        } else {
            Err(ParseError::BadOperand)
        }
    }
}

/// The instruction that a line of source text writes.
pub open spec fn parse_line(s: Seq<char>) -> Result<Instr, ParseError> {
    decode_words(split_words(s))
}

fn same_word(w: &str, lit: &str) -> (r: bool)
    ensures
        r == (w@ == lit@),
{
    let n = w.unicode_len();
    if n != lit.unicode_len() {
        return false;
    }
    let mut i: usize = 0;
    while i < n
        invariant
            n == w@.len(),
            n == lit@.len(),
            i <= n,
            forall|j: int| 0 <= j < i ==> w@[j] == lit@[j],
        decreases n - i,
    {
        if w.get_char(i) != lit.get_char(i) {
            return false;
        }
        i = i + 1;
    }
    assert(w@ =~= lit@);
    true
}

/// Recognises a mnemonic.
pub fn mnemonic(w: &str) -> (r: Option<Mnemonic>)
    ensures
        r == mnemonic_of(w@),
{
    if same_word(w, "mov") {
        Some(Mnemonic::Mov)
    } else if same_word(w, "movi") {
        Some(Mnemonic::Movi)
    } else if same_word(w, "addi") {
        Some(Mnemonic::Addi)
    } else if same_word(w, "subi") {
        Some(Mnemonic::Subi)
    } else if same_word(w, "add") {
        Some(Mnemonic::Add)
    } else if same_word(w, "addr") {
        Some(Mnemonic::Addr)
    } else if same_word(w, "sub") {
        Some(Mnemonic::Sub)
    } else if same_word(w, "subr") {
        Some(Mnemonic::Subr)
    } else {
        None
    }
}

/// Decodes the words of one line into an instruction.
pub fn to_instr(v: &Vec<&str>) -> (r: Result<Instr, ParseError>)
    ensures
        r == decode_words(views(v@)),
{
    let ghost w = views(v@);
    if v.len() == 0 {
        return Err(ParseError::UnknownInstruction);
    }
    let m = match mnemonic(v[0]) {
        Some(m) => m,
        None => return Err(ParseError::UnknownInstruction),
    };
    let k = m.operand_count();
    if v.len() != k + 1 {
        return Err(ParseError::OperandCount);
    }
    let mut ops: Vec<u32> = Vec::new();
    let mut i: usize = 1;
    while i < v.len()
        invariant
            w == views(v@),
            w.len() == k + 1,
            k == m.arity(),
            mnemonic_of(w[0]) == Some(m),
            1 <= i <= v.len(),
            ops@.len() == i - 1,
            forall|j: int| 1 <= j < i ==> (#[trigger] operand_value(w[j])) is Some,
            forall|j: int| 0 <= j < i - 1 ==> ops@[j] == operand_value(w[j + 1])->Some_0,
        decreases v.len() - i,
    {
        assert(w[i as int] == v@[i as int]@);
        match parse_operand(v[i]) {
            Some(x) => {
                ops.push(x);
            },
            None => {
                assert(operand_value(w[i as int]) is None);
                return Err(ParseError::BadOperand);
            },
        }
        i = i + 1;
    }
    let ghost vals = Seq::new(m.arity(), |j: int| operand_value(w[j + 1])->Some_0);
    if k == 2 {
        assert(seq![ops[0], ops[1]] =~= vals);
        Ok(m.string_to_instr(ops[0], ops[1]))
    } else {
        assert(seq![ops[0], ops[1], ops[2]] =~= vals);
        Ok(m.string_to_3arginstr(ops[0], ops[1], ops[2]))
    }
}

/// Parses one line of source text, words separated by single spaces.
pub fn parse_string(string: &String) -> (r: Result<Instr, ParseError>)
    ensures
        r == parse_line(string@),
{
    let words = split_line(string.as_str());
    to_instr(&words)
}

pub open spec fn digit_char(n: nat) -> char {
    seq!['0', '1', '2', '3', '4', '5', '6', '7', '8', '9'][n as int]
}

/// The decimal digits of `n`, most significant first, without leading zeros.
pub open spec fn decimal(n: nat) -> Seq<char>
    decreases n,
{
    if n < 10 {
        seq![digit_char(n)]
    } else {
        decimal(n / 10).push(digit_char(n % 10))
    }
}

/// Words joined by single spaces.
pub open spec fn join_words(ws: Seq<Seq<char>>) -> Seq<char>
    decreases ws.len(),
{
    if ws.len() == 0 {
        Seq::empty()
    } else if ws.len() == 1 {
        ws[0]
    } else {
        join_words(ws.drop_last()) + seq![' '] + ws.last()
    }
}

pub open spec fn no_space(w: Seq<char>) -> bool {
    forall|i: int| 0 <= i < w.len() ==> w[i] != ' '
}

/// The words of an instruction's text form: the mnemonic, then for each operand its
/// prefix character followed by its decimal value.
pub open spec fn instr_words(m: Mnemonic, prefixes: Seq<char>, ops: Seq<u32>) -> Seq<Seq<char>> {
    seq![m.text()] + Seq::new(m.arity(), |i: int| seq![prefixes[i]] + decimal(ops[i] as nat))
}

/// An instruction's text form, e.g. `add r1 r0 r0`.
pub open spec fn instr_text(m: Mnemonic, prefixes: Seq<char>, ops: Seq<u32>) -> Seq<char> {
    join_words(instr_words(m, prefixes, ops))
}

proof fn lemma_digit_char(k: nat)
    requires
        k < 10,
    ensures
        is_digit(digit_char(k)),
        digit_value(digit_char(k)) == k,
{
    let ds = seq!['0', '1', '2', '3', '4', '5', '6', '7', '8', '9'];
    if k == 0 {
        assert(ds[0] == '0');
    } else if k == 1 {
        assert(ds[1] == '1');
    } else if k == 2 {
        assert(ds[2] == '2');
    } else if k == 3 {
        assert(ds[3] == '3');
    } else if k == 4 {
        assert(ds[4] == '4');
    } else if k == 5 {
        assert(ds[5] == '5');
    } else if k == 6 {
        assert(ds[6] == '6');
    } else if k == 7 {
        assert(ds[7] == '7');
    } else if k == 8 {
        assert(ds[8] == '8');
    } else {
        assert(ds[9] == '9');
    }
}

proof fn lemma_decimal(n: nat)
    ensures
        decimal(n).len() >= 1,
        all_digits(decimal(n)),
        digits_value(decimal(n)) == n,
    decreases n,
{
    if n < 10 {
        lemma_digit_char(n);
        assert(decimal(n).drop_last() =~= Seq::<char>::empty());
        assert(decimal(n).last() == digit_char(n));
        assert(digits_value(decimal(n)) == digits_value(Seq::<char>::empty()) * 10 + digit_value(digit_char(n)));
    } else {
        lemma_decimal(n / 10);
        lemma_digit_char(n % 10);
        let d = decimal(n);
        assert(d.drop_last() =~= decimal(n / 10));
        assert(n == (n / 10) * 10 + n % 10);
        assert(d.last() == digit_char(n % 10));
        assert(digits_value(d) == digits_value(decimal(n / 10)) * 10 + digit_value(digit_char(n % 10)));
        assert forall|i: int| 0 <= i < d.len() implies is_digit(#[trigger] d[i]) by {
            if i < d.len() - 1 {
                assert(d[i] == decimal(n / 10)[i]);
            }
        }
    }
}

proof fn lemma_operand_text(p: char, v: u32)
    ensures
        operand_value(seq![p] + decimal(v as nat)) == Some(v),
        p != ' ' ==> no_space(seq![p] + decimal(v as nat)),
{
    lemma_decimal(v as nat);
    let t = seq![p] + decimal(v as nat);
    assert(t.subrange(1, t.len() as int) =~= decimal(v as nat));
    if p != ' ' {
        assert forall|i: int| 0 <= i < t.len() implies t[i] != ' ' by {
            if i > 0 {
                assert(t[i] == decimal(v as nat)[i - 1]);
                assert(is_digit(decimal(v as nat)[i - 1]));
            }
        }
    }
}

proof fn lemma_split_append(x: Seq<char>, w: Seq<char>)
    requires
        no_space(w),
    ensures
        split_words(x).len() >= 1,
        split_words(x + w) == split_words(x).update(
            split_words(x).len() - 1,
            split_words(x).last() + w,
        ),
    decreases w.len(),
{
    lemma_split_nonempty(x);
    let sx = split_words(x);
    if w.len() == 0 {
        assert(x + w =~= x);
        assert(sx.last() + w =~= sx.last());
        assert(sx.update(sx.len() - 1, sx.last() + w) =~= sx);
    } else {
        let w0 = w.drop_last();
        assert forall|i: int| 0 <= i < w0.len() implies w0[i] != ' ' by {
            assert(w0[i] == w[i]);
        }
        assert(w[w.len() - 1] != ' ');
        lemma_split_append(x, w0);
        assert((x + w).drop_last() =~= x + w0);
        assert((x + w).last() == w.last());
        let s0 = split_words(x + w0);
        assert(s0 == sx.update(sx.len() - 1, sx.last() + w0));
        assert(s0.len() == sx.len());
        assert(split_words(x + w) == s0.update(s0.len() - 1, s0.last().push(w.last())));
        assert(s0.last() == sx.last() + w0);
        assert((sx.last() + w0).push(w.last()) =~= sx.last() + w);
        assert(split_words(x + w) =~= sx.update(sx.len() - 1, sx.last() + w));
    }
}

proof fn lemma_split_join(ws: Seq<Seq<char>>)
    requires
        ws.len() >= 1,
        forall|i: int| 0 <= i < ws.len() ==> no_space(#[trigger] ws[i]),
    ensures
        split_words(join_words(ws)) == ws,
    decreases ws.len(),
{
    if ws.len() == 1 {
        lemma_split_append(Seq::empty(), ws[0]);
        assert(Seq::<char>::empty() + ws[0] =~= ws[0]);
        assert(split_words(Seq::<char>::empty()) == seq![Seq::<char>::empty()]);
        assert(split_words(ws[0]) =~= ws);
    } else {
        let pre = ws.drop_last();
        assert forall|i: int| 0 <= i < pre.len() implies no_space(#[trigger] pre[i]) by {
            assert(pre[i] == ws[i]);
        }
        lemma_split_join(pre);
        let x = join_words(pre) + seq![' '];
        assert(x.drop_last() =~= join_words(pre));
        assert(split_words(x) == pre.push(Seq::<char>::empty()));
        assert(ws[ws.len() - 1] == ws.last());
        lemma_split_append(x, ws.last());
        assert(Seq::<char>::empty() + ws.last() =~= ws.last());
        assert(split_words(x + ws.last()) =~= ws);
    }
}

proof fn lemma_mnemonic_text(m: Mnemonic)
    ensures
        mnemonic_of(m.text()) == Some(m),
        no_space(m.text()),
{
    reveal_strlit("mov");
    reveal_strlit("movi");
    reveal_strlit("addi");
    reveal_strlit("subi");
    reveal_strlit("add");
    reveal_strlit("addr");
    reveal_strlit("sub");
    reveal_strlit("subr");
    let t = m.text();
    assert(t.len() == 3 || t.len() == 4);
    assert(no_space(t));
    assert(Mnemonic::Mov.text()[0] != Mnemonic::Addi.text()[0]);
    assert(Mnemonic::Mov.text()[0] != Mnemonic::Subi.text()[0]);
    assert(Mnemonic::Mov.text()[0] != Mnemonic::Add.text()[0]);
    assert(Mnemonic::Mov.text()[0] != Mnemonic::Sub.text()[0]);
    assert(Mnemonic::Add.text()[0] != Mnemonic::Sub.text()[0]);
    assert(Mnemonic::Addi.text()[3] != Mnemonic::Addr.text()[3]);
    assert(Mnemonic::Subi.text()[3] != Mnemonic::Subr.text()[3]);
    assert(Mnemonic::Movi.text()[0] != Mnemonic::Addi.text()[0]);
    assert(Mnemonic::Movi.text()[0] != Mnemonic::Subi.text()[0]);
    assert(Mnemonic::Addi.text()[0] != Mnemonic::Subi.text()[0]);
    assert(Mnemonic::Movi.text()[0] != Mnemonic::Addr.text()[0]);
    assert(Mnemonic::Movi.text()[0] != Mnemonic::Subr.text()[0]);
    assert(Mnemonic::Addi.text()[0] != Mnemonic::Subr.text()[0]);
    assert(Mnemonic::Addr.text()[0] != Mnemonic::Subi.text()[0]);
    assert(Mnemonic::Addr.text()[0] != Mnemonic::Subr.text()[0]);
}

/// Round trip: the text form of every instruction, written with any non-space
/// operand prefixes, parses to exactly the instruction its mnemonic names over
/// those operand values, and the mnemonic names no other.
pub proof fn lemma_parse_round_trip(m: Mnemonic, prefixes: Seq<char>, ops: Seq<u32>)
    requires
        prefixes.len() == m.arity(),
        ops.len() == m.arity(),
        forall|i: int| 0 <= i < prefixes.len() ==> prefixes[i] != ' ',
    ensures
        mnemonic_of(m.text()) == Some(m),
        parse_line(instr_text(m, prefixes, ops)) == Ok::<Instr, ParseError>(m.build(ops)),
{
    lemma_mnemonic_text(m);
    let ws = instr_words(m, prefixes, ops);
    assert(ws[0] == m.text());
    assert forall|i: int| 1 <= i < ws.len() implies #[trigger] operand_value(ws[i]) == Some(ops[i - 1]) by {
        assert(ws[i] == seq![prefixes[i - 1]] + decimal(ops[i - 1] as nat));
        lemma_operand_text(prefixes[i - 1], ops[i - 1]);
    }
    assert forall|i: int| 0 <= i < ws.len() implies no_space(#[trigger] ws[i]) by {
        if i > 0 {
            assert(ws[i] == seq![prefixes[i - 1]] + decimal(ops[i - 1] as nat));
            lemma_operand_text(prefixes[i - 1], ops[i - 1]);
        }
    }
    lemma_split_join(ws);
    assert(Seq::new(m.arity(), |j: int| operand_value(ws[j + 1])->Some_0) =~= ops);
}

} // verus!
