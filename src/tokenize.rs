//! The first pass: splits source text into statements and collects the
//! names of labels and constants.

use vstd::prelude::*;
use crate::literal::{decode_at_size, decode_sized, AddressSize, HexPair};
use crate::opcodes::{find_mnemonic, mnemonic_index};
use crate::text::{
    before, contains, ends_with, has_char, same_chars, split_once, split_pieces, split_words,
    split_by, strip_suffix, strip_suffix_chars, trim, trim_chars, views, words,
};

verus! {

/// Why a source text cannot be assembled.
#[derive(Clone, Copy, Debug, PartialEq, Eq, Structural)]
pub enum AsmError {
    /// A numeric token follows none of the literal forms, or does not fit.
    MalformedLiteral,
    /// A statement names no known mnemonic.
    UnknownOpcode,
    /// The operand's form gives a mode that the instruction lacks, or cannot
    /// be read at all.
    UnknownAddressingPattern,
    /// The width of an operand cannot be told from its form.
    AmbiguousOperandWidth,
}

/// A named position in the program.
#[derive(Debug)]
pub struct Label {
    /// The label's name, without its colon.
    pub name: Vec<char>,
    /// The index of the statement that the label marks.
    pub line: usize,
    /// The address of that statement, once encoding has reached it.
    pub address: u16,
}

/// What a [`Label`] holds.
pub struct LabelView {
    pub name: Seq<char>,
    pub line: nat,
    pub address: u16,
}

impl View for Label {
    type V = LabelView;

    open spec fn view(&self) -> LabelView {
        LabelView { name: self.name@, line: self.line as nat, address: self.address }
    }
}

/// A named constant.
#[derive(Debug)]
pub struct Define {
    /// The constant's name.
    pub name: Vec<char>,
    /// The width its literal was written with.
    pub size: AddressSize,
    /// Its value.
    pub value: HexPair,
}

/// What a [`Define`] holds.
pub struct DefineView {
    pub name: Seq<char>,
    pub size: AddressSize,
    pub value: HexPair,
}

impl View for Define {
    type V = DefineView;

    open spec fn view(&self) -> DefineView {
        DefineView { name: self.name@, size: self.size, value: self.value }
    }
}

/// One statement of the program.
#[derive(Debug)]
pub enum TokenLine {
    /// Sets the location counter to an address.
    Origin(u16),
    /// A mnemonic and its operand, as words.
    Instruction(Vec<Vec<char>>),
}

/// What a [`TokenLine`] holds.
pub enum TokenLineView {
    Origin(u16),
    Instruction(Seq<Seq<char>>),
}

impl View for TokenLine {
    type V = TokenLineView;

    open spec fn view(&self) -> TokenLineView {
        match self {
            TokenLine::Origin(a) => TokenLineView::Origin(*a),
            TokenLine::Instruction(w) => TokenLineView::Instruction(views(w@)),
        }
    }
}

/// The views of a label table.
pub open spec fn label_views(s: Seq<Label>) -> Seq<LabelView> {
    s.map_values(|l: Label| l@)
}

/// The views of a constant table.
pub open spec fn define_views(s: Seq<Define>) -> Seq<DefineView> {
    s.map_values(|d: Define| d@)
}

/// The views of a statement list.
pub open spec fn line_views(s: Seq<TokenLine>) -> Seq<TokenLineView> {
    s.map_values(|t: TokenLine| t@)
}

/// The index of the first of `names` equal to `name`.
pub open spec fn find_name(names: Seq<Seq<char>>, name: Seq<char>) -> Option<nat>
    decreases names.len(),
{
    if names.len() == 0 {
        None
    } else {
        match find_name(names.drop_last(), name) {
            Some(i) => Some(i),
            None => if names.last() == name {
                Some((names.len() - 1) as nat)
            } else {
                None
            },
        }
    }
}

/// The names of a label table, in order.
pub open spec fn label_names(ls: Seq<LabelView>) -> Seq<Seq<char>> {
    ls.map_values(|l: LabelView| l.name)
}

/// The names of a constant table, in order.
pub open spec fn define_names(ds: Seq<DefineView>) -> Seq<Seq<char>> {
    ds.map_values(|d: DefineView| d.name)
}

/// The label table after binding `name` to statement `line`: a label of that
/// name is moved, a new one is added at the end.
pub open spec fn label_insert(ls: Seq<LabelView>, name: Seq<char>, line: nat) -> Seq<LabelView> {
    let l = LabelView { name, line, address: 0 };
    match find_name(label_names(ls), name) {
        Some(i) => ls.update(i as int, l),
        None => ls.push(l),
    }
}

/// The constant table after binding `name`: a constant of that name is
/// replaced, a new one is added at the end.
pub open spec fn define_insert(
    ds: Seq<DefineView>,
    name: Seq<char>,
    size: AddressSize,
    value: HexPair,
) -> Seq<DefineView> {
    let d = DefineView { name, size, value };
    match find_name(define_names(ds), name) {
        Some(i) => ds.update(i as int, d),
        None => ds.push(d),
    }
}

/// A lone colon.
pub open spec fn colon() -> Seq<char> {
    seq![':']
}

/// The label table after binding each of the waiting labels to `line`.
pub open spec fn bind_pending(ls: Seq<LabelView>, pending: Seq<Seq<char>>, line: nat) -> Seq<
    LabelView,
>
    decreases pending.len(),
{
    if pending.len() == 0 {
        ls
    } else {
        label_insert(
            bind_pending(ls, pending.drop_last(), line),
            strip_suffix(pending.last(), colon()),
            line,
        )
    }
}

/// The state of the first pass between two source lines.
pub struct Collected {
    pub tokens: Seq<TokenLineView>,
    pub labels: Seq<LabelView>,
    pub defines: Seq<DefineView>,
    /// Labels that stand alone on their line, waiting for the next statement.
    pub pending: Seq<Seq<char>>,
}

/// The 16-bit value of a pair.
pub open spec fn word_of(v: HexPair) -> u16 {
    (v.lower as int + 256 * v.upper as int) as u16
}

/// The location directive keyword.
pub open spec fn org_keyword() -> Seq<char> {
    seq!['O', 'R', 'G']
}

/// The first pass over one source line.
#[verifier::opaque]
pub open spec fn collect_line(st: Collected, line: Seq<char>) -> Result<Collected, AsmError> {
    let code = before(line, ';');
    let toks = words(code);
    if toks.len() == 0 {
        Ok(st)
    } else if contains(code, '=') {
        let lhs = before(code, '=');
        let rhs = trim(before(crate::text::after(code, '='), '='));
        match decode_at_size(rhs) {
            None => Err(AsmError::MalformedLiteral),
            Some((size, value)) => if contains(lhs, '*') {
                Ok(Collected { tokens: st.tokens.push(TokenLineView::Origin(word_of(value))), ..st })
            } else {
                Ok(Collected { defines: define_insert(st.defines, trim(lhs), size, value), ..st })
            },
        }
    } else if toks.len() == 1 && mnemonic_index(toks[0]) is None && ends_with(toks[0], colon()) {
        Ok(Collected { pending: st.pending.push(toks[0]), ..st })
    } else if toks.len() == 2 && toks[0] == org_keyword() {
        match decode_at_size(toks[1]) {
            None => Err(AsmError::MalformedLiteral),
            Some((size, value)) => Ok(
                Collected { tokens: st.tokens.push(TokenLineView::Origin(word_of(value))), ..st },
            ),
        }
    } else {
        let n = st.tokens.len();
        let bound = bind_pending(st.labels, st.pending, n);
        if mnemonic_index(toks[0]) is None {
            Ok(
                Collected {
                    tokens: st.tokens.push(TokenLineView::Instruction(toks.drop_first())),
                    labels: label_insert(bound, strip_suffix(toks[0], colon()), n),
                    defines: st.defines,
                    pending: Seq::empty(),
                },
            )
        } else {
            Ok(
                Collected {
                    tokens: st.tokens.push(TokenLineView::Instruction(toks)),
                    labels: bound,
                    defines: st.defines,
                    pending: Seq::empty(),
                },
            )
        }
    }
}

/// The first pass over a sequence of source lines.
pub open spec fn collect_lines(lines: Seq<Seq<char>>) -> Result<Collected, AsmError>
    decreases lines.len(),
{
    if lines.len() == 0 {
        Ok(
            Collected {
                tokens: Seq::empty(),
                labels: Seq::empty(),
                defines: Seq::empty(),
                pending: Seq::empty(),
            },
        )
    } else {
        match collect_lines(lines.drop_last()) {
            Ok(st) => collect_line(st, lines.last()),
            Err(e) => Err(e),
        }
    }
}

/// The statements, labels and constants of a source text.
pub open spec fn tokenize(code: Seq<char>) -> Result<
    (Seq<TokenLineView>, Seq<LabelView>, Seq<DefineView>),
    AsmError,
> {
    match collect_lines(split_by(code, '\n')) {
        Ok(st) => Ok((st.tokens, st.labels, st.defines)),
        Err(e) => Err(e),
    }
}

proof fn lemma_find_prefix(names: Seq<Seq<char>>, k: int, name: Seq<char>)
    requires
        0 <= k <= names.len(),
        find_name(names.subrange(0, k), name) is Some,
    ensures
        find_name(names, name) == find_name(names.subrange(0, k), name),
    decreases names.len() - k,
{
    if k < names.len() {
        let next = names.subrange(0, k + 1);
        assert(next.drop_last() =~= names.subrange(0, k));
        lemma_find_prefix(names, k + 1, name);
    } else {
        assert(names.subrange(0, k) =~= names);
    }
}

/// The index of the label named `name`, if there is one.
pub fn find_label(labels: &Vec<Label>, name: &[char]) -> (r: Option<usize>)
    ensures
        r matches Some(i) ==> find_name(label_names(label_views(labels@)), name@) == Some(
            i as nat,
        ) && i < labels@.len(),
        r is None ==> find_name(label_names(label_views(labels@)), name@) is None,
{
    let ghost names = label_names(label_views(labels@));
    let mut i: usize = 0;
    while i < labels.len()
        invariant
            i <= labels@.len(),
            names == label_names(label_views(labels@)),
            find_name(names.subrange(0, i as int), name@) is None,
        decreases labels@.len() - i,
    {
        let ghost next = names.subrange(0, i + 1);
        assert(next.drop_last() =~= names.subrange(0, i as int));
        assert(next.last() == labels@[i as int].name@);
        if same_chars(labels[i].name.as_slice(), name) {
            proof {
                lemma_find_prefix(names, i + 1, name@);
            }
            return Some(i);
        }
        i = i + 1;
    }
    assert(names.subrange(0, i as int) =~= names);
    None
}

/// The index of the constant named `name`, if there is one.
pub fn find_define(defines: &Vec<Define>, name: &[char]) -> (r: Option<usize>)
    ensures
        r matches Some(i) ==> find_name(define_names(define_views(defines@)), name@) == Some(
            i as nat,
        ) && i < defines@.len(),
        r is None ==> find_name(define_names(define_views(defines@)), name@) is None,
{
    let ghost names = define_names(define_views(defines@));
    let mut i: usize = 0;
    while i < defines.len()
        invariant
            i <= defines@.len(),
            names == define_names(define_views(defines@)),
            find_name(names.subrange(0, i as int), name@) is None,
        decreases defines@.len() - i,
    {
        let ghost next = names.subrange(0, i + 1);
        assert(next.drop_last() =~= names.subrange(0, i as int));
        assert(next.last() == defines@[i as int].name@);
        if same_chars(defines[i].name.as_slice(), name) {
            proof {
                lemma_find_prefix(names, i + 1, name@);
            }
            return Some(i);
        }
        i = i + 1;
    }
    assert(names.subrange(0, i as int) =~= names);
    None
}

fn insert_label(labels: &mut Vec<Label>, name: Vec<char>, line: usize)
    ensures
        label_views(final(labels)@) == label_insert(label_views(old(labels)@), name@, line as nat),
{
    let l = Label { name: name, line: line, address: 0 };
    match find_label(labels, l.name.as_slice()) {
        Some(i) => {
            labels.set(i, l);
            assert(label_views(labels@) =~= label_insert(
                label_views(old(labels)@),
                l.name@,
                line as nat,
            ));
        },
        None => {
            labels.push(l);
            assert(label_views(labels@) =~= label_insert(
                label_views(old(labels)@),
                l.name@,
                line as nat,
            ));
        },
    }
}

fn insert_define(defines: &mut Vec<Define>, name: Vec<char>, size: AddressSize, value: HexPair)
    ensures
        define_views(final(defines)@) == define_insert(
            define_views(old(defines)@),
            name@,
            size,
            value,
        ),
{
    let d = Define { name: name, size: size, value: value };
    match find_define(defines, d.name.as_slice()) {
        Some(i) => {
            defines.set(i, d);
            assert(define_views(defines@) =~= define_insert(
                define_views(old(defines)@),
                d.name@,
                size,
                value,
            ));
        },
        None => {
            defines.push(d);
            assert(define_views(defines@) =~= define_insert(
                define_views(old(defines)@),
                d.name@,
                size,
                value,
            ));
        },
    }
}

/// The first pass's tables while it runs.
struct Collector {
    tokens: Vec<TokenLine>,
    labels: Vec<Label>,
    defines: Vec<Define>,
    pending: Vec<Vec<char>>,
}

spec fn collector_view(c: &Collector) -> Collected {
    Collected {
        tokens: line_views(c.tokens@),
        labels: label_views(c.labels@),
        defines: define_views(c.defines@),
        pending: views(c.pending@),
    }
}

fn ends_with_colon(t: &[char]) -> (r: bool)
    ensures
        r == ends_with(t@, colon()),
{
    if t.len() >= 1 && t[t.len() - 1] == ':' {
        assert(t@.subrange(t@.len() - 1, t@.len() as int) =~= colon());
        true
    } else {
        proof {
            if t@.len() >= 1 {
                assert(t@.subrange(t@.len() - 1, t@.len() as int)[0] == t@[t@.len() - 1]);
            }
        }
        false
    }
}

fn is_org(t: &[char]) -> (r: bool)
    ensures
        r == (t@ == org_keyword()),
{
    if t.len() == 3 && t[0] == 'O' && t[1] == 'R' && t[2] == 'G' {
        assert(t@ =~= org_keyword());
        true
    } else {
        false
    }
}

fn colon_chars() -> (r: Vec<char>)
    ensures
        r@ == colon(),
{
    let r = vec![':'];
    assert(r@ =~= colon());
    r
}

fn word_value(v: HexPair) -> (r: u16)
    ensures
        r == word_of(v),
{
    v.lower as u16 + 256 * (v.upper as u16)
}

/// Binds the waiting labels to statement `line`.
fn bind_waiting(labels: &mut Vec<Label>, pending: &Vec<Vec<char>>, line: usize)
    ensures
        label_views(final(labels)@) == bind_pending(
            label_views(old(labels)@),
            views(pending@),
            line as nat,
        ),
{
    let ghost start = label_views(labels@);
    let ghost ps = views(pending@);
    let col = colon_chars();
    let mut k: usize = 0;
    assert(ps.subrange(0, 0) =~= Seq::<Seq<char>>::empty());
    while k < pending.len()
        invariant
            k <= pending@.len(),
            ps == views(pending@),
            col@ == colon(),
            label_views(labels@) == bind_pending(start, ps.subrange(0, k as int), line as nat),
        decreases pending@.len() - k,
    {
        let ghost next = ps.subrange(0, k + 1);
        assert(next.drop_last() =~= ps.subrange(0, k as int));
        let name = strip_suffix_chars(pending[k].as_slice(), col.as_slice());
        insert_label(labels, name, line);
        k = k + 1;
    }
    assert(ps.subrange(0, k as int) =~= ps);
}

/// The first pass over one source line.
fn collect_step(st: &mut Collector, line: &[char]) -> (r: Result<(), AsmError>)
    ensures
        match collect_line(collector_view(old(st)), line@) {
            Ok(next) => r is Ok && collector_view(final(st)) == next,
            Err(e) => r == Err::<(), AsmError>(e),
        },
{
    reveal(collect_line);
    let ghost st0 = collector_view(st);
    let (code, _) = split_once(line, ';');
    let mut toks = split_words(code.as_slice());
    if toks.len() == 0 {
        return Ok(());
    }
    if has_char(code.as_slice(), '=') {
        let (lhs, tail) = split_once(code.as_slice(), '=');
        let (rhs_raw, _) = split_once(tail.as_slice(), '=');
        let rhs = trim_chars(rhs_raw.as_slice());
        match decode_sized(rhs.as_slice()) {
            None => {
                return Err(AsmError::MalformedLiteral);
            },
            Some((size, value)) => {
                if has_char(lhs.as_slice(), '*') {
                    let t = TokenLine::Origin(word_value(value));
                    st.tokens.push(t);
                    assert(line_views(st.tokens@) =~= st0.tokens.push(t@));
                } else {
                    let name = trim_chars(lhs.as_slice());
                    insert_define(&mut st.defines, name, size, value);
                }
                return Ok(());
            },
        }
    }
    assert(views(toks@)[0] == toks@[0]@);
    let first_is_op = find_mnemonic(toks[0].as_slice()).is_some();
    if toks.len() == 1 && !first_is_op && ends_with_colon(toks[0].as_slice()) {
        let t = copy_word(&toks, 0);
        st.pending.push(t);
        assert(views(st.pending@) =~= st0.pending.push(views(toks@)[0]));
        return Ok(());
    }
    if toks.len() == 2 && is_org(toks[0].as_slice()) {
        assert(views(toks@)[1] == toks@[1]@);
        match decode_sized(toks[1].as_slice()) {
            None => {
                return Err(AsmError::MalformedLiteral);
            },
            Some((_, value)) => {
                let t = TokenLine::Origin(word_value(value));
                st.tokens.push(t);
                assert(line_views(st.tokens@) =~= st0.tokens.push(t@));
                return Ok(());
            },
        }
    }
    let n = st.tokens.len();
    bind_waiting(&mut st.labels, &st.pending, n);
    st.pending = Vec::new();
    assert(views(st.pending@) =~= Seq::<Seq<char>>::empty());
    if !first_is_op {
        let ghost all = views(toks@);
        let first = toks.remove(0);
        assert(views(toks@) =~= all.drop_first());
        let col = colon_chars();
        let name = strip_suffix_chars(first.as_slice(), col.as_slice());
        insert_label(&mut st.labels, name, n);
    }
    let t = TokenLine::Instruction(toks);
    st.tokens.push(t);
    assert(line_views(st.tokens@) =~= st0.tokens.push(t@));
    Ok(())
}

fn copy_word(toks: &Vec<Vec<char>>, i: usize) -> (r: Vec<char>)
    requires
        i < toks@.len(),
    ensures
        r@ == toks@[i as int]@,
{
    let w = toks[i].as_slice();
    let r = crate::text::copy_range(w, 0, w.len());
    assert(w@.subrange(0, w@.len() as int) =~= w@);
    r
}

proof fn lemma_collect_err(lines: Seq<Seq<char>>, k: int)
    requires
        0 <= k <= lines.len(),
        collect_lines(lines.subrange(0, k)) is Err,
    ensures
        collect_lines(lines) == collect_lines(lines.subrange(0, k)),
    decreases lines.len() - k,
{
    if k < lines.len() {
        let next = lines.subrange(0, k + 1);
        assert(next.drop_last() =~= lines.subrange(0, k));
        lemma_collect_err(lines, k + 1);
    } else {
        assert(lines.subrange(0, k) =~= lines);
    }
}

/// Splits a source text into statements and collects its labels and
/// constants.
///
/// Everything from a `;` to the end of its line is a comment. A line holding
/// `=` defines a constant, or, when the left side holds `*`, sets the location
/// counter; so does `ORG literal`. A line of one word ending in `:` that is
/// no mnemonic declares a label for the next statement. Otherwise a first
/// word that is no mnemonic is a label of this statement, and the rest is the
/// statement. Fails with `MalformedLiteral` when the literal of a constant or
/// location directive cannot be read.
pub fn create_symbols_and_tokenize(code: &str) -> (r: Result<
    (Vec<TokenLine>, Vec<Label>, Vec<Define>),
    AsmError,
>)
    ensures
        match (tokenize(code@), r) {
            (Ok(t), Ok(v)) => line_views(v.0@) == t.0 && label_views(v.1@) == t.1 && define_views(
                v.2@,
            ) == t.2,
            (Err(e), Err(f)) => e == f,
            _ => false,
        },
{
    let text = crate::text::chars_of(code);
    let lines = split_pieces(text.as_slice(), '\n');
    let ghost ls = views(lines@);
    let mut st = Collector {
        tokens: Vec::new(),
        labels: Vec::new(),
        defines: Vec::new(),
        pending: Vec::new(),
    };
    let mut k: usize = 0;
    assert(ls.subrange(0, 0) =~= Seq::<Seq<char>>::empty());
    assert(line_views(st.tokens@) =~= Seq::empty());
    assert(label_views(st.labels@) =~= Seq::empty());
    assert(define_views(st.defines@) =~= Seq::empty());
    assert(views(st.pending@) =~= Seq::empty());
    while k < lines.len()
        invariant
            k <= lines@.len(),
            ls == views(lines@),
            ls == split_by(code@, '\n'),
            collect_lines(ls.subrange(0, k as int)) == Ok::<Collected, AsmError>(
                collector_view(&st),
            ),
        decreases lines@.len() - k,
    {
        let ghost next = ls.subrange(0, k + 1);
        assert(next.drop_last() =~= ls.subrange(0, k as int));
        assert(next.last() == lines@[k as int]@);
        match collect_step(&mut st, lines[k].as_slice()) {
            Ok(()) => {},
            Err(e) => {
                proof {
                    lemma_collect_err(ls, k + 1);
                }
                return Err(e);
            },
        }
        k = k + 1;
    }
    assert(ls.subrange(0, k as int) =~= ls);
    Ok((st.tokens, st.labels, st.defines))
}

} // verus!
