use vstd::prelude::*;

use crate::chars::{
    case_eq, chars_eq_str, chars_to_string, lemma_case_eq_lower_seq, lemma_upper_hits_fixed,
    str_to_chars, upper_chars, upper_seq,
};
use crate::errors::AsmError;
use crate::instructions::{
    lemma_mnemonic_case_insensitive, spec_lookup_mnemonic, InstructionMode, Instructions,
};
use crate::token::{Token, TokenView};
use crate::utils::{
    before_char, clean_frags, cleanup_frags, contains_char, contains_char_exec, frags_case_eq,
    has_numeric_marker, has_numeric_marker_exec, lemma_clean_frags_case_eq,
    lemma_contains_char_case_eq, lemma_split_char_nonempty, lemma_upper_before_char,
    lemma_upper_remove_char, lemma_upper_split_char, register_to_byte_chars, remove_char,
    remove_char_exec, spec_register_to_byte, spec_string_to_u32, split_char, split_char_exec,
    string_to_u32_chars, take_until,
};

verus! {

// ---------------------------------------------------------------------------
// The label pre-pass, modelled as a fold over the source lines.
// ---------------------------------------------------------------------------

/// The lexer's state while the pre-pass walks the source lines: the label
/// table built so far, the running byte address, and the retained lines.
pub ghost struct PrepassState {
    pub labels: Seq<(Seq<char>, u32)>,
    pub addr: u32,
    pub retained: Seq<Seq<Seq<char>>>,
}

/// A line as handed over by the line splitter: one trailing carriage return
/// is dropped.
pub open spec fn strip_cr(line: Seq<char>) -> Seq<char> {
    if line.len() > 0 && line.last() == '\r' {
        line.drop_last()
    } else {
        line
    }
}

/// The source text split into lines.
pub open spec fn split_lines(input: Seq<char>) -> Seq<Seq<char>> {
    split_char(input, '\n').map_values(|l: Seq<char>| strip_cr(l))
}

/// The recorded name of a label definition: the upper-cased text before
/// the first colon.
pub open spec fn label_name_of(frag: Seq<char>) -> Seq<char> {
    upper_seq(before_char(frag, ':'))
}

/// How one source line changes the pre-pass state.  A line whose first
/// fragment holds a colon defines a label at the current address and is
/// retained without that fragment if anything is left, without advancing the
/// address; any other non-empty line is retained and advances the address by
/// four; an empty line is dropped.
pub open spec fn prepass_step(st: PrepassState, line: Seq<char>) -> PrepassState {
    let frags = clean_frags(line);
    if frags.len() > 0 && contains_char(frags[0], ':') {
        let rest = frags.drop_first();
        PrepassState {
            labels: st.labels.push((label_name_of(frags[0]), st.addr)),
            addr: st.addr,
            retained: if rest.len() > 0 {
                st.retained.push(rest)
            } else {
                st.retained
            },
        }
    } else if frags.len() > 0 {
        PrepassState {
            labels: st.labels,
            addr: (st.addr + 4) as u32,
            retained: st.retained.push(frags),
        }
    } else {
        st
    }
}

/// The pre-pass state after the first `n` lines.
pub open spec fn prepass_from(st: PrepassState, lines: Seq<Seq<char>>, n: int) -> PrepassState
    decreases n,
{
    if n <= 0 {
        st
    } else {
        prepass_step(prepass_from(st, lines, n - 1), lines[n - 1])
    }
}

/// The pre-pass over a whole source text, started from `st`.
pub open spec fn spec_prepass(st: PrepassState, input: Seq<char>) -> PrepassState {
    prepass_from(st, split_lines(input), split_lines(input).len() as int)
}

proof fn lemma_split_char_len(s: Seq<char>, sep: char)
    ensures
        split_char(s, sep).len() <= s.len() + 1,
    decreases s.len(),
{
    if s.len() > 0 {
        lemma_split_char_len(s.drop_last(), sep);
        lemma_split_char_nonempty(s.drop_last(), sep);
    }
}

// ---------------------------------------------------------------------------
// Tokenizing one retained line.
// ---------------------------------------------------------------------------

/// An operand fragment, upper-cased, with one leading `R` prefix stripped
/// when a letter follows it.
pub open spec fn reg_name_core(f: Seq<char>) -> Seq<char> {
    let u = upper_seq(f);
    if u.len() >= 2 && u[0] == 'R' {
        u.drop_first()
    } else {
        u
    }
}

/// The register named by an operand fragment, case-insensitively: an
/// optional `R` prefix, then one letter of the sixteen-entry table.
pub open spec fn spec_process_register(f: Seq<char>) -> Option<u32> {
    spec_register_to_byte(reg_name_core(f))
}

/// A bracketed last operand: `[Rx]` is register-indirect, `[Rx+imm]` is
/// base plus offset.
pub open spec fn spec_memory_operand(last: Seq<char>) -> Result<
    (TokenView, InstructionMode),
    AsmError,
> {
    let inner = remove_char(remove_char(last, '['), ']');
    if contains_char(inner, '+') {
        let parts = split_char(inner, '+');
        match spec_process_register(parts[0]) {
            Some(r) => match spec_string_to_u32(parts[1]) {
                Some(off) => Ok((TokenView::BaseOffset(r, off), InstructionMode::BaseOffset)),
                None => Err(AsmError::MalformedNumericLiteral),
            },
            None => Err(AsmError::InvalidRegister),
        }
    } else {
        match spec_process_register(inner) {
            Some(r) => Ok((TokenView::Register(r), InstructionMode::RegisterIndirect)),
            None => Err(AsmError::InvalidRegister),
        }
    }
}

/// The token and addressing mode chosen by a line's last fragment: brackets
/// make a memory operand, a numeric literal an immediate value, a register
/// name register mode; anything else is read as a label reference, resolved
/// later under immediate mode.
pub open spec fn spec_last_operand(last: Seq<char>) -> Result<
    (TokenView, InstructionMode),
    AsmError,
> {
    if contains_char(last, '[') && contains_char(last, ']') {
        spec_memory_operand(last)
    } else {
        match spec_string_to_u32(last) {
            Some(v) => Ok((TokenView::Value(v), InstructionMode::Immediate)),
            None => {
                if has_numeric_marker(last) {
                    Err(AsmError::MalformedNumericLiteral)
                } else {
                    match spec_process_register(last) {
                        Some(r) => Ok((TokenView::Register(r), InstructionMode::Register)),
                        None => Ok((TokenView::Label(last), InstructionMode::Immediate)),
                    }
                }
            },
        }
    }
}

/// The register indices of the fragments between the mnemonic and the last
/// operand, or nothing as soon as one of them is no register.
pub open spec fn regs_of(frags: Seq<Seq<char>>) -> Option<Seq<u32>>
    decreases frags.len(),
{
    if frags.len() == 0 {
        Some(Seq::empty())
    } else {
        match regs_of(frags.drop_last()) {
            Some(rs) => match spec_process_register(frags.last()) {
                Some(r) => Some(rs.push(r)),
                None => None,
            },
            None => None,
        }
    }
}

/// The token sequence of one line: mnemonic, then the mode, then one
/// register token per middle fragment, then the last operand's token.
pub open spec fn line_token_list(
    op: Instructions,
    mode: InstructionMode,
    regs: Seq<u32>,
    last: TokenView,
) -> Seq<TokenView> {
    seq![TokenView::OpCode(op), TokenView::Mode(mode)] + regs.map_values(
        |r: u32| TokenView::Register(r),
    ) + seq![last]
}

/// The tokens of one retained line, or the error that aborts the run.
pub open spec fn spec_tokenize_line(frags: Seq<Seq<char>>) -> Result<Seq<TokenView>, AsmError> {
    if frags.len() == 0 {
        Err(AsmError::InternalTokenInvariant)
    } else if frags.len() > 4 {
        Err(AsmError::TooManyTokens)
    } else {
        match spec_lookup_mnemonic(frags[0]) {
            None => Err(AsmError::UnknownInstruction),
            Some(op) => {
                if frags.len() == 1 {
                    Ok(seq![TokenView::OpCode(op), TokenView::Mode(InstructionMode::Register)])
                } else {
                    match regs_of(frags.subrange(1, frags.len() - 1)) {
                        None => Err(AsmError::InvalidRegister),
                        Some(regs) => match spec_last_operand(frags.last()) {
                            Err(e) => Err(e),
                            Ok((t, mode)) => Ok(line_token_list(op, mode, regs, t)),
                        },
                    }
                }
            },
        }
    }
}

/// The tokens of all retained lines in order, or the first error.
pub open spec fn spec_tokenize_lines(lines: Seq<Seq<Seq<char>>>) -> Result<
    Seq<Seq<TokenView>>,
    AsmError,
>
    decreases lines.len(),
{
    if lines.len() == 0 {
        Ok(Seq::empty())
    } else {
        match spec_tokenize_lines(lines.drop_last()) {
            Err(e) => Err(e),
            Ok(ts) => match spec_tokenize_line(lines.last()) {
                Err(e) => Err(e),
                Ok(t) => Ok(ts.push(t)),
            },
        }
    }
}

/// The first definition of a name wins: a lookup walks the table front to
/// back.
pub open spec fn spec_lookup_label(labels: Seq<(Seq<char>, u32)>, name: Seq<char>) -> Option<u32>
    decreases labels.len(),
{
    if labels.len() == 0 {
        None
    } else if labels.first().0 == name {
        Some(labels.first().1)
    } else {
        spec_lookup_label(labels.drop_first(), name)
    }
}

proof fn lemma_tokenize_lines_error(lines: Seq<Seq<Seq<char>>>, i: int, e: AsmError)
    requires
        0 <= i < lines.len(),
        spec_tokenize_lines(lines.take(i)) is Ok,
        spec_tokenize_line(lines[i]) == Err::<Seq<TokenView>, AsmError>(e),
    ensures
        spec_tokenize_lines(lines) == Err::<Seq<Seq<TokenView>>, AsmError>(e),
    decreases lines.len(),
{
    if i == lines.len() - 1 {
        assert(lines.drop_last() =~= lines.take(i));
    } else {
        assert(lines.drop_last().take(i) =~= lines.take(i));
        lemma_tokenize_lines_error(lines.drop_last(), i, e);
    }
}

proof fn lemma_regs_of_error(fs: Seq<Seq<char>>, i: int)
    requires
        0 <= i < fs.len(),
        regs_of(fs.take(i)) is Some,
        spec_process_register(fs[i]) is None,
    ensures
        regs_of(fs) is None,
    decreases fs.len(),
{
    if i == fs.len() - 1 {
        assert(fs.drop_last() =~= fs.take(i));
    } else {
        assert(fs.drop_last().take(i) =~= fs.take(i));
        lemma_regs_of_error(fs.drop_last(), i);
    }
}

proof fn lemma_split_char_contains(s: Seq<char>, sep: char)
    requires
        contains_char(s, sep),
    ensures
        split_char(s, sep).len() >= 2,
    decreases s.len(),
{
    lemma_split_char_nonempty(s.drop_last(), sep);
    if s.last() == sep {
    } else {
        let i = choose|i: int| 0 <= i < s.len() && s[i] == sep;
        assert(s.drop_last()[i] == sep);
        lemma_split_char_contains(s.drop_last(), sep);
    }
}


// ---------------------------------------------------------------------------
// Laws of the label table.
// ---------------------------------------------------------------------------

/// The pre-pass state of a fresh lexer.
pub open spec fn empty_prepass_state() -> PrepassState {
    PrepassState { labels: Seq::empty(), addr: 0, retained: Seq::empty() }
}

/// Whether a source line defines a label: its first cleaned fragment holds
/// a colon.
pub open spec fn defines_label(line: Seq<char>) -> bool {
    clean_frags(line).len() > 0 && contains_char(clean_frags(line)[0], ':')
}

/// Whether every label definition stands on a line of its own, with no
/// instruction after the colon.
pub open spec fn bare_label_lines(lines: Seq<Seq<char>>) -> bool {
    forall|i: int|
        0 <= i < lines.len() && #[trigger] defines_label(lines[i]) ==> clean_frags(
            lines[i],
        ).len() == 1
}

/// Label lookup is case-insensitive: names equal up to case resolve to the
/// same address, or both to none.
pub proof fn lemma_label_lookup_case_insensitive(
    labels: Seq<(Seq<char>, u32)>,
    a: Seq<char>,
    b: Seq<char>,
)
    requires
        crate::chars::case_eq(a, b),
    ensures
        spec_lookup_label(labels, upper_seq(a)) == spec_lookup_label(labels, upper_seq(b)),
{
}

proof fn lemma_no_entry_lookup(labels: Seq<(Seq<char>, u32)>, name: Seq<char>)
    requires
        forall|k: int| 0 <= k < labels.len() ==> (#[trigger] labels[k]).0 != name,
    ensures
        spec_lookup_label(labels, name) is None,
    decreases labels.len(),
{
    if labels.len() > 0 {
        assert(labels[0].0 != name);
        assert forall|k: int| 0 <= k < labels.drop_first().len() implies (#[trigger] labels.drop_first()[k]).0
            != name by {
            assert(labels.drop_first()[k] == labels[k + 1]);
        }
        lemma_no_entry_lookup(labels.drop_first(), name);
    }
}

proof fn lemma_lookup_push_new(labels: Seq<(Seq<char>, u32)>, e: (Seq<char>, u32), name: Seq<char>)
    requires
        forall|k: int| 0 <= k < labels.len() ==> (#[trigger] labels[k]).0 != name,
        e.0 == name,
    ensures
        spec_lookup_label(labels.push(e), name) == Some(e.1),
    decreases labels.len(),
{
    if labels.len() == 0 {
        assert(labels.push(e).first() == e);
    } else {
        assert(labels.push(e).first() == labels[0]);
        assert forall|k: int| 0 <= k < labels.drop_first().len() implies (#[trigger] labels.drop_first()[k]).0
            != name by {
            assert(labels.drop_first()[k] == labels[k + 1]);
        }
        assert(labels.push(e).drop_first() =~= labels.drop_first().push(e));
        lemma_lookup_push_new(labels.drop_first(), e, name);
    }
}

proof fn lemma_lookup_append(l1: Seq<(Seq<char>, u32)>, l2: Seq<(Seq<char>, u32)>, name: Seq<char>)
    requires
        spec_lookup_label(l1, name) is Some,
    ensures
        spec_lookup_label(l1 + l2, name) == spec_lookup_label(l1, name),
    decreases l1.len(),
{
    assert((l1 + l2).first() == l1.first());
    if l1.first().0 == name {
    } else {
        assert(l1.drop_first() + l2 =~= (l1 + l2).drop_first());
        lemma_lookup_append(l1.drop_first(), l2, name);
    }
}

proof fn lemma_prepass_labels_prefix(st0: PrepassState, lines: Seq<Seq<char>>, m: int, n: int)
    requires
        0 <= m <= n,
    ensures
        prepass_from(st0, lines, m).labels.is_prefix_of(prepass_from(st0, lines, n).labels),
    decreases n,
{
    let a = prepass_from(st0, lines, m).labels;
    if m < n {
        lemma_prepass_labels_prefix(st0, lines, m, n - 1);
        let b = prepass_from(st0, lines, n - 1).labels;
        let c = prepass_from(st0, lines, n).labels;
        assert(a =~= b.take(a.len() as int));
        assert(a =~= c.take(a.len() as int));
    } else {
        assert(a =~= a.take(a.len() as int));
    }
}

/// On bare label lines, the running address always equals four bytes per
/// retained instruction.
proof fn lemma_prepass_position(lines: Seq<Seq<char>>, n: int)
    requires
        bare_label_lines(lines),
        0 <= n <= lines.len(),
        4 * lines.len() <= u32::MAX,
    ensures
        prepass_from(empty_prepass_state(), lines, n).addr == 4 * prepass_from(
            empty_prepass_state(),
            lines,
            n,
        ).retained.len(),
        prepass_from(empty_prepass_state(), lines, n).retained.len() <= n,
    decreases n,
{
    if n > 0 {
        lemma_prepass_position(lines, n - 1);
        if defines_label(lines[n - 1]) {
            assert(clean_frags(lines[n - 1]).len() == 1);
        }
    }
}

proof fn lemma_undefined_name_absent(lines: Seq<Seq<char>>, n: int, name: Seq<char>)
    requires
        0 <= n <= lines.len(),
        forall|j: int|
            0 <= j < n && #[trigger] defines_label(lines[j]) ==> label_name_of(
                clean_frags(lines[j])[0],
            ) != name,
    ensures
        forall|k: int|
            0 <= k < prepass_from(empty_prepass_state(), lines, n).labels.len() ==> (
            #[trigger] prepass_from(empty_prepass_state(), lines, n).labels[k]).0 != name,
    decreases n,
{
    if n > 0 {
        lemma_undefined_name_absent(lines, n - 1, name);
        let pre = prepass_from(empty_prepass_state(), lines, n - 1).labels;
        let post = prepass_from(empty_prepass_state(), lines, n).labels;
        if defines_label(lines[n - 1]) {
            assert(label_name_of(clean_frags(lines[n - 1])[0]) != name);
            assert forall|k: int| 0 <= k < post.len() implies (#[trigger] post[k]).0 != name by {
                if k < pre.len() {
                    assert(post[k] == pre[k]);
                }
            }
        } else {
            assert(post =~= pre);
        }
    }
}

/// A label defined once, on a line of its own, is recorded at — and every
/// later lookup returns — four times the zero-based position of the next
/// retained instruction: the byte address of the instruction the label
/// points at.
pub proof fn lemma_label_round_trip(lines: Seq<Seq<char>>, i: int)
    requires
        bare_label_lines(lines),
        4 * lines.len() <= u32::MAX,
        0 <= i < lines.len(),
        defines_label(lines[i]),
        forall|j: int|
            0 <= j < i && #[trigger] defines_label(lines[j]) ==> label_name_of(
                clean_frags(lines[j])[0],
            ) != label_name_of(clean_frags(lines[i])[0]),
    ensures
        spec_lookup_label(
            prepass_from(empty_prepass_state(), lines, lines.len() as int).labels,
            label_name_of(clean_frags(lines[i])[0]),
        ) == Some(
            (4 * prepass_from(empty_prepass_state(), lines, i).retained.len()) as u32,
        ),
{
    let name = label_name_of(clean_frags(lines[i])[0]);
    let st_i = prepass_from(empty_prepass_state(), lines, i);
    let st_i1 = prepass_from(empty_prepass_state(), lines, i + 1);
    let fin = prepass_from(empty_prepass_state(), lines, lines.len() as int);
    lemma_prepass_position(lines, i);
    assert(st_i.addr == 4 * st_i.retained.len());
    assert(st_i1.labels == st_i.labels.push((name, st_i.addr)));
    lemma_undefined_name_absent(lines, i, name);
    lemma_lookup_push_new(st_i.labels, (name, st_i.addr), name);
    assert(spec_lookup_label(st_i1.labels, name) == Some(st_i.addr));
    lemma_prepass_labels_prefix(empty_prepass_state(), lines, i + 1, lines.len() as int);
    assert(fin.labels =~= st_i1.labels + fin.labels.skip(st_i1.labels.len() as int));
    lemma_lookup_append(st_i1.labels, fin.labels.skip(st_i1.labels.len() as int), name);
}


// ---------------------------------------------------------------------------
// Case-insensitivity of the whole lexer.  Mnemonics, register names and
// label names may be written in any letter case; only the text of a label
// token keeps the case it was written in, and label lookup ignores it.
// ---------------------------------------------------------------------------

/// Whether two tokens agree, letting a label's text differ in case.
pub open spec fn token_case_eq(a: TokenView, b: TokenView) -> bool {
    match (a, b) {
        (TokenView::Label(x), TokenView::Label(y)) => case_eq(x, y),
        _ => a == b,
    }
}

/// Whether two token rows agree token by token, up to label-text case.
pub open spec fn row_case_eq(x: Seq<TokenView>, y: Seq<TokenView>) -> bool {
    x.len() == y.len() && forall|i: int| 0 <= i < x.len() ==> token_case_eq(x[i], y[i])
}

/// Whether two sets of retained lines agree line by line, up to case.
pub open spec fn retained_case_eq(x: Seq<Seq<Seq<char>>>, y: Seq<Seq<Seq<char>>>) -> bool {
    x.len() == y.len() && forall|i: int| 0 <= i < x.len() ==> frags_case_eq(x[i], y[i])
}

/// How the results of tokenizing two sources may relate: the same error,
/// or token rows equal up to label-text case.
pub open spec fn rows_result_case_eq(
    r1: Result<Seq<Seq<TokenView>>, AsmError>,
    r2: Result<Seq<Seq<TokenView>>, AsmError>,
) -> bool {
    match (r1, r2) {
        (Ok(a), Ok(b)) => a.len() == b.len() && forall|i: int|
            0 <= i < a.len() ==> row_case_eq(a[i], b[i]),
        (Err(e1), Err(e2)) => e1 == e2,
        _ => false,
    }
}

/// Register resolution is case-insensitive.
pub proof fn lemma_process_register_case_eq(a: Seq<char>, b: Seq<char>)
    requires
        case_eq(a, b),
    ensures
        spec_process_register(a) == spec_process_register(b),
{
}

/// Numeric-literal reading is case-insensitive.
pub proof fn lemma_string_to_u32_case_eq(a: Seq<char>, b: Seq<char>)
    requires
        case_eq(a, b),
    ensures
        spec_string_to_u32(a) == spec_string_to_u32(b),
{
    lemma_case_eq_lower_seq(a, b);
}

proof fn lemma_marker_case_eq(a: Seq<char>, b: Seq<char>)
    requires
        case_eq(a, b),
    ensures
        has_numeric_marker(a) == has_numeric_marker(b),
{
    lemma_case_eq_lower_seq(a, b);
}

proof fn lemma_remove_char_case_eq(a: Seq<char>, b: Seq<char>, c: char)
    requires
        case_eq(a, b),
        crate::chars::case_fixed(c),
    ensures
        case_eq(remove_char(a, c), remove_char(b, c)),
{
    lemma_upper_remove_char(a, c);
    lemma_upper_remove_char(b, c);
}

proof fn lemma_split_char_case_eq(a: Seq<char>, b: Seq<char>, sep: char)
    requires
        case_eq(a, b),
        crate::chars::case_fixed(sep),
    ensures
        frags_case_eq(split_char(a, sep), split_char(b, sep)),
{
    let m = |f: Seq<char>| upper_seq(f);
    lemma_upper_split_char(a, sep);
    lemma_upper_split_char(b, sep);
    assert(split_char(a, sep).map_values(m) == split_char(b, sep).map_values(m));
    assert forall|i: int| 0 <= i < split_char(a, sep).len() implies case_eq(
        split_char(a, sep)[i],
        split_char(b, sep)[i],
    ) by {
        assert(split_char(a, sep).map_values(m)[i] == upper_seq(split_char(a, sep)[i]));
        assert(split_char(b, sep).map_values(m)[i] == upper_seq(split_char(b, sep)[i]));
    }
}

/// Memory operands resolve identically for case-equal fragments.
pub proof fn lemma_memory_operand_case_eq(a: Seq<char>, b: Seq<char>)
    requires
        case_eq(a, b),
    ensures
        spec_memory_operand(a) == spec_memory_operand(b),
{
    lemma_remove_char_case_eq(a, b, '[');
    let ia = remove_char(a, '[');
    let ib = remove_char(b, '[');
    lemma_remove_char_case_eq(ia, ib, ']');
    let ja = remove_char(ia, ']');
    let jb = remove_char(ib, ']');
    lemma_contains_char_case_eq(ja, jb, '+');
    if contains_char(ja, '+') {
        lemma_split_char_contains(ja, '+');
        lemma_split_char_contains(jb, '+');
        lemma_split_char_case_eq(ja, jb, '+');
        lemma_process_register_case_eq(split_char(ja, '+')[0], split_char(jb, '+')[0]);
        lemma_string_to_u32_case_eq(split_char(ja, '+')[1], split_char(jb, '+')[1]);
    } else {
        lemma_process_register_case_eq(ja, jb);
    }
}

/// The last operand of case-equal fragments picks the same mode and the
/// same token, up to label-text case.
pub proof fn lemma_last_operand_case_eq(a: Seq<char>, b: Seq<char>)
    requires
        case_eq(a, b),
    ensures
        match (spec_last_operand(a), spec_last_operand(b)) {
            (Ok((t1, m1)), Ok((t2, m2))) => m1 == m2 && token_case_eq(t1, t2),
            (Err(e1), Err(e2)) => e1 == e2,
            _ => false,
        },
{
    lemma_contains_char_case_eq(a, b, '[');
    lemma_contains_char_case_eq(a, b, ']');
    if contains_char(a, '[') && contains_char(a, ']') {
        lemma_memory_operand_case_eq(a, b);
    } else {
        lemma_string_to_u32_case_eq(a, b);
        lemma_marker_case_eq(a, b);
        lemma_process_register_case_eq(a, b);
    }
}

proof fn lemma_frags_case_eq_drop_last(x: Seq<Seq<char>>, y: Seq<Seq<char>>)
    requires
        frags_case_eq(x, y),
        x.len() > 0,
    ensures
        frags_case_eq(x.drop_last(), y.drop_last()),
{
    assert forall|i: int| 0 <= i < x.drop_last().len() implies case_eq(
        x.drop_last()[i],
        y.drop_last()[i],
    ) by {
        assert(x.drop_last()[i] == x[i]);
        assert(y.drop_last()[i] == y[i]);
    }
}

proof fn lemma_regs_of_case_eq(x: Seq<Seq<char>>, y: Seq<Seq<char>>)
    requires
        frags_case_eq(x, y),
    ensures
        regs_of(x) == regs_of(y),
    decreases x.len(),
{
    if x.len() > 0 {
        lemma_frags_case_eq_drop_last(x, y);
        lemma_regs_of_case_eq(x.drop_last(), y.drop_last());
        lemma_process_register_case_eq(x.last(), y.last());
    }
}

/// Tokenizing case-equal lines fails alike or yields token rows equal up
/// to label-text case.
pub proof fn lemma_tokenize_line_case_eq(f1: Seq<Seq<char>>, f2: Seq<Seq<char>>)
    requires
        frags_case_eq(f1, f2),
    ensures
        match (spec_tokenize_line(f1), spec_tokenize_line(f2)) {
            (Ok(t1), Ok(t2)) => row_case_eq(t1, t2),
            (Err(e1), Err(e2)) => e1 == e2,
            _ => false,
        },
{
    if f1.len() == 0 || f1.len() > 4 {
    } else {
        lemma_mnemonic_case_insensitive(f1[0], f2[0]);
        match spec_lookup_mnemonic(f1[0]) {
            None => {},
            Some(op) => {
                if f1.len() == 1 {
                    let t1 = spec_tokenize_line(f1)->Ok_0;
                    let t2 = spec_tokenize_line(f2)->Ok_0;
                    assert forall|i: int| 0 <= i < t1.len() implies token_case_eq(
                        t1[i],
                        t2[i],
                    ) by {}
                } else {
                    let m1 = f1.subrange(1, f1.len() - 1);
                    let m2 = f2.subrange(1, f2.len() - 1);
                    assert forall|i: int| 0 <= i < m1.len() implies case_eq(m1[i], m2[i]) by {
                        assert(m1[i] == f1[i + 1]);
                        assert(m2[i] == f2[i + 1]);
                    }
                    lemma_regs_of_case_eq(m1, m2);
                    match regs_of(m1) {
                        None => {},
                        Some(regs) => {
                            assert(f1.last() == f1[f1.len() - 1]);
                            assert(f2.last() == f2[f2.len() - 1]);
                            lemma_last_operand_case_eq(f1.last(), f2.last());
                            match (spec_last_operand(f1.last()), spec_last_operand(f2.last())) {
                                (Ok((t1, mode)), Ok((t2, _))) => {
                                    let r1 = line_token_list(op, mode, regs, t1);
                                    let r2 = line_token_list(op, mode, regs, t2);
                                    assert forall|i: int| 0 <= i < r1.len() implies token_case_eq(
                                        r1[i],
                                        r2[i],
                                    ) by {
                                        if i < r1.len() - 1 {
                                            assert(r1[i] == r2[i]);
                                        } else {
                                            assert(r1[i] == t1);
                                            assert(r2[i] == t2);
                                        }
                                    }
                                },
                                _ => {},
                            }
                        },
                    }
                }
            },
        }
    }
}

proof fn lemma_strip_cr_case_eq(a: Seq<char>, b: Seq<char>)
    requires
        case_eq(a, b),
    ensures
        case_eq(strip_cr(a), strip_cr(b)),
{
    assert(upper_seq(a).len() == a.len());
    assert(upper_seq(b).len() == b.len());
    if a.len() > 0 {
        assert(upper_seq(a).last() == crate::chars::upper_char(a.last()));
        assert(upper_seq(b).last() == crate::chars::upper_char(b.last()));
        lemma_upper_hits_fixed(a.last(), '\r');
        lemma_upper_hits_fixed(b.last(), '\r');
        if a.last() == '\r' {
            assert(upper_seq(a.drop_last()) =~= upper_seq(a).drop_last());
            assert(upper_seq(b.drop_last()) =~= upper_seq(b).drop_last());
        }
    }
}

/// Splitting case-equal sources yields case-equal lines.
pub proof fn lemma_split_lines_case_eq(a: Seq<char>, b: Seq<char>)
    requires
        case_eq(a, b),
    ensures
        frags_case_eq(split_lines(a), split_lines(b)),
{
    lemma_split_char_case_eq(a, b, '\n');
    let ra = split_char(a, '\n');
    let rb = split_char(b, '\n');
    assert forall|i: int| 0 <= i < split_lines(a).len() implies case_eq(
        split_lines(a)[i],
        split_lines(b)[i],
    ) by {
        assert(split_lines(a)[i] == strip_cr(ra[i]));
        assert(split_lines(b)[i] == strip_cr(rb[i]));
        lemma_strip_cr_case_eq(ra[i], rb[i]);
    }
}

/// How two pre-pass states may relate while walking case-equal sources:
/// the same labels and address, and retained lines equal up to case.
pub open spec fn state_case_eq(s1: PrepassState, s2: PrepassState) -> bool {
    s1.labels == s2.labels && s1.addr == s2.addr && retained_case_eq(s1.retained, s2.retained)
}

proof fn lemma_prepass_step_case_eq(s1: PrepassState, s2: PrepassState, l1: Seq<char>, l2: Seq<char>)
    requires
        state_case_eq(s1, s2),
        case_eq(l1, l2),
    ensures
        state_case_eq(prepass_step(s1, l1), prepass_step(s2, l2)),
{
    lemma_clean_frags_case_eq(l1, l2);
    let f1 = clean_frags(l1);
    let f2 = clean_frags(l2);
    if f1.len() > 0 {
        lemma_contains_char_case_eq(f1[0], f2[0], ':');
        if contains_char(f1[0], ':') {
            lemma_upper_before_char(f1[0], ':');
            lemma_upper_before_char(f2[0], ':');
            assert(label_name_of(f1[0]) == label_name_of(f2[0]));
            let r1 = f1.drop_first();
            let r2 = f2.drop_first();
            assert forall|i: int| 0 <= i < r1.len() implies case_eq(r1[i], r2[i]) by {
                assert(r1[i] == f1[i + 1]);
                assert(r2[i] == f2[i + 1]);
            }
            if r1.len() > 0 {
                assert forall|i: int| 0 <= i < s1.retained.push(r1).len() implies frags_case_eq(
                    s1.retained.push(r1)[i],
                    s2.retained.push(r2)[i],
                ) by {
                    if i < s1.retained.len() {
                        assert(s1.retained.push(r1)[i] == s1.retained[i]);
                        assert(s2.retained.push(r2)[i] == s2.retained[i]);
                    } else {
                        assert(s1.retained.push(r1)[i] == r1);
                        assert(s2.retained.push(r2)[i] == r2);
                    }
                }
            }
        } else {
            assert forall|i: int| 0 <= i < s1.retained.push(f1).len() implies frags_case_eq(
                s1.retained.push(f1)[i],
                s2.retained.push(f2)[i],
            ) by {
                if i < s1.retained.len() {
                    assert(s1.retained.push(f1)[i] == s1.retained[i]);
                    assert(s2.retained.push(f2)[i] == s2.retained[i]);
                } else {
                    assert(s1.retained.push(f1)[i] == f1);
                    assert(s2.retained.push(f2)[i] == f2);
                }
            }
        }
    }
}

proof fn lemma_prepass_from_case_eq(
    s1: PrepassState,
    s2: PrepassState,
    ls1: Seq<Seq<char>>,
    ls2: Seq<Seq<char>>,
    n: int,
)
    requires
        state_case_eq(s1, s2),
        frags_case_eq(ls1, ls2),
        0 <= n <= ls1.len(),
    ensures
        state_case_eq(prepass_from(s1, ls1, n), prepass_from(s2, ls2, n)),
    decreases n,
{
    if n > 0 {
        lemma_prepass_from_case_eq(s1, s2, ls1, ls2, n - 1);
        lemma_prepass_step_case_eq(
            prepass_from(s1, ls1, n - 1),
            prepass_from(s2, ls2, n - 1),
            ls1[n - 1],
            ls2[n - 1],
        );
    }
}

proof fn lemma_retained_case_eq_drop_last(x: Seq<Seq<Seq<char>>>, y: Seq<Seq<Seq<char>>>)
    requires
        retained_case_eq(x, y),
        x.len() > 0,
    ensures
        retained_case_eq(x.drop_last(), y.drop_last()),
{
    assert forall|i: int| 0 <= i < x.drop_last().len() implies frags_case_eq(
        x.drop_last()[i],
        y.drop_last()[i],
    ) by {
        assert(x.drop_last()[i] == x[i]);
        assert(y.drop_last()[i] == y[i]);
    }
}

/// Tokenizing retained lines equal up to case fails alike or yields the
/// same rows up to label-text case.
pub proof fn lemma_tokenize_lines_case_eq(x: Seq<Seq<Seq<char>>>, y: Seq<Seq<Seq<char>>>)
    requires
        retained_case_eq(x, y),
    ensures
        rows_result_case_eq(spec_tokenize_lines(x), spec_tokenize_lines(y)),
    decreases x.len(),
{
    if x.len() > 0 {
        lemma_retained_case_eq_drop_last(x, y);
        lemma_tokenize_lines_case_eq(x.drop_last(), y.drop_last());
        lemma_tokenize_line_case_eq(x.last(), y.last());
        match (spec_tokenize_lines(x.drop_last()), spec_tokenize_lines(y.drop_last())) {
            (Ok(a), Ok(b)) => {
                match (spec_tokenize_line(x.last()), spec_tokenize_line(y.last())) {
                    (Ok(t1), Ok(t2)) => {
                        assert forall|i: int| 0 <= i < a.push(t1).len() implies row_case_eq(
                            a.push(t1)[i],
                            b.push(t2)[i],
                        ) by {
                            if i < a.len() {
                                assert(a.push(t1)[i] == a[i]);
                                assert(b.push(t2)[i] == b[i]);
                            } else {
                                assert(a.push(t1)[i] == t1);
                                assert(b.push(t2)[i] == t2);
                            }
                        }
                    },
                    _ => {},
                }
            },
            _ => {},
        }
    }
}

/// Case-insensitivity of the whole front end: two sources equal up to
/// letter case build the same label table, reach the same address, and
/// tokenize to the same rows — alike in opcode, mode and register indices,
/// with at most the letter case of a label token's text differing, which
/// label lookup ignores.
pub proof fn lemma_tokenize_case_insensitive(src1: Seq<char>, src2: Seq<char>)
    requires
        case_eq(src1, src2),
    ensures
        spec_prepass(empty_prepass_state(), src1).labels == spec_prepass(
            empty_prepass_state(),
            src2,
        ).labels,
        spec_prepass(empty_prepass_state(), src1).addr == spec_prepass(
            empty_prepass_state(),
            src2,
        ).addr,
        rows_result_case_eq(
            spec_tokenize_lines(spec_prepass(empty_prepass_state(), src1).retained),
            spec_tokenize_lines(spec_prepass(empty_prepass_state(), src2).retained),
        ),
{
    lemma_split_lines_case_eq(src1, src2);
    lemma_prepass_from_case_eq(
        empty_prepass_state(),
        empty_prepass_state(),
        split_lines(src1),
        split_lines(src2),
        split_lines(src1).len() as int,
    );
    lemma_tokenize_lines_case_eq(
        spec_prepass(empty_prepass_state(), src1).retained,
        spec_prepass(empty_prepass_state(), src2).retained,
    );
}

// ---------------------------------------------------------------------------
// The lexer.
// ---------------------------------------------------------------------------

/// Holds the label table and the cleaned, retained lines of the pre-pass.
pub struct Lexer {
    pub labels: Vec<(String, u32)>,
    clean_lines: Vec<Vec<Vec<char>>>,
}

impl Lexer {
    /// The label table as mathematical pairs of name and address.
    pub closed spec fn labels_view(&self) -> Seq<(Seq<char>, u32)> {
        self.labels.deep_view()
    }

    /// The retained lines, each a sequence of fragments.
    pub closed spec fn clean_lines_view(&self) -> Seq<Seq<Seq<char>>> {
        self.clean_lines.deep_view()
    }

    /// This lexer's accumulated state, as the pre-pass start state: the
    /// running address always restarts at zero.
    pub open spec fn state(&self) -> PrepassState {
        PrepassState { labels: self.labels_view(), addr: 0, retained: self.clean_lines_view() }
    }

    /// A lexer with no labels and no retained lines.
    pub fn new() -> (r: Self)
        ensures
            r.labels_view() == Seq::<(Seq<char>, u32)>::empty(),
            r.clean_lines_view() == Seq::<Seq<Seq<char>>>::empty(),
    {
        let r = Lexer { labels: Vec::new(), clean_lines: Vec::new() };
        proof {
            assert(r.labels.deep_view() =~= Seq::<(Seq<char>, u32)>::empty());
            assert(r.clean_lines.deep_view() =~= Seq::<Seq<Seq<char>>>::empty());
        }
        r
    }

    fn is_label_line(&self, clean_line: &Vec<Vec<char>>) -> (r: bool)
        ensures
            r == (clean_line.deep_view().len() > 0 && contains_char(clean_line.deep_view()[0], ':')),
    {
        if clean_line.len() == 0 {
            return false;
        }
        proof {
            assert(clean_line.deep_view()[0] =~= clean_line@[0]@);
        }
        contains_char_exec(&clean_line[0], ':')
    }

    fn handle_label_line(
        &mut self,
        clean_line: &mut Vec<Vec<char>>,
        current_index: &mut u32,
    )
        requires
            old(clean_line)@.len() > 0,
        ensures
            final(self).labels_view() == old(self).labels_view().push(
                (label_name_of(old(clean_line).deep_view()[0]), *old(current_index)),
            ),
            final(self).clean_lines_view() == old(self).clean_lines_view(),
            final(clean_line).deep_view() == old(clean_line).deep_view().drop_first(),
            *final(current_index) == *old(current_index),
    {
        proof {
            assert(clean_line.deep_view()[0] =~= clean_line@[0]@);
        }
        let token = take_until(&clean_line[0], ':');
        let up = upper_chars(&token);
        let name = chars_to_string(&up);
        let ghost pre = self.labels@;
        self.labels.push((name, *current_index));
        clean_line.remove(0);
        proof {
            assert forall|k: int|
                0 <= k < self.labels@.len() implies self.labels.deep_view()[k]
                == old(self).labels_view().push(
                (label_name_of(old(clean_line).deep_view()[0]), *old(current_index)),
            )[k] by {
                if k < pre.len() {
                    assert(self.labels@[k] == pre[k]);
                }
            }
            assert(self.labels.deep_view() =~= old(self).labels_view().push(
                (label_name_of(old(clean_line).deep_view()[0]), *old(current_index)),
            ));
            assert(clean_line.deep_view() =~= old(clean_line).deep_view().drop_first());
        }
    }

    fn increment_index_for_non_label_line(
        &self,
        clean_line: &Vec<Vec<char>>,
        current_index: &mut u32,
    )
        requires
            *old(current_index) + 4 <= u32::MAX,
        ensures
            *final(current_index) == if clean_line.deep_view().len() > 0 {
                (*old(current_index) + 4) as u32
            } else {
                *old(current_index)
            },
    {
        if clean_line.len() > 0 {
            *current_index = *current_index + 4;
        }
    }

    fn add_clean_line(&mut self, clean_line: Vec<Vec<char>>)
        ensures
            final(self).labels_view() == old(self).labels_view(),
            final(self).clean_lines_view() == if clean_line.deep_view().len() > 0 {
                old(self).clean_lines_view().push(clean_line.deep_view())
            } else {
                old(self).clean_lines_view()
            },
    {
        if clean_line.len() == 0 {
            return ;
        }
        let ghost pre = self.clean_lines@;
        self.clean_lines.push(clean_line);
        proof {
            assert forall|k: int|
                0 <= k < self.clean_lines@.len() implies self.clean_lines.deep_view()[k] == old(
                self,
            ).clean_lines_view().push(clean_line.deep_view())[k] by {
                if k < pre.len() {
                    assert(self.clean_lines@[k] == pre[k]);
                }
            }
            assert(self.clean_lines.deep_view() =~= old(self).clean_lines_view().push(
                clean_line.deep_view(),
            ));
        }
    }

    /// Walks the source once: records every label definition with the byte
    /// address it stands at, and retains every cleaned non-empty line.  The
    /// source must stay below 2^28 characters so that every byte address
    /// fits in 32 bits.
    #[verifier::loop_isolation(false)]
    pub fn label_prepass(&mut self, input: String)
        requires
            input@.len() < 0x1000_0000,
        ensures
            final(self).labels_view() == spec_prepass(old(self).state(), input@).labels,
            final(self).clean_lines_view() == spec_prepass(old(self).state(), input@).retained,
    {
        let chars = str_to_chars(input.as_str());
        let raw_lines = split_char_exec(&chars, '\n');
        let ghost lv = split_lines(input@);
        let mut lines: Vec<Vec<char>> = Vec::new();
        let mut i: usize = 0;
        while i < raw_lines.len()
            invariant
                i <= raw_lines@.len(),
                lines.deep_view() == lv.take(i as int),
            decreases raw_lines@.len() - i,
        {
            proof {
                assert(raw_lines.deep_view()[i as int] =~= raw_lines@[i as int]@);
            }
            let line = if raw_lines[i].len() > 0 && raw_lines[i][raw_lines[i].len() - 1] == '\r' {
                let mut l = raw_lines[i].clone();
                l.pop();
                proof {
                    assert(l@ =~= strip_cr(raw_lines.deep_view()[i as int]));
                }
                l
            } else {
                let l = raw_lines[i].clone();
                assert(l@ == strip_cr(raw_lines.deep_view()[i as int]));
                l
            };
            let ghost pre = lines@;
            lines.push(line);
            proof {
                assert forall|k: int| 0 <= k < i + 1 implies lines.deep_view()[k] == lv.take(
                    i as int + 1,
                )[k] by {
                    if k < i {
                        assert(lines@[k] == pre[k]);
                    }
                }
                assert(lines.deep_view() =~= lv.take(i as int + 1));
            }
            i = i + 1;
        }
        proof {
            assert(lv.take(lv.len() as int) =~= lv);
            lemma_split_char_len(input@, '\n');
        }
        let ghost st0 = old(self).state();
        let mut current_index: u32 = 0;
        let mut i: usize = 0;
        while i < lines.len()
            invariant
                i <= lines@.len(),
                self.labels_view() == prepass_from(st0, lv, i as int).labels,
                self.clean_lines_view() == prepass_from(st0, lv, i as int).retained,
                current_index == prepass_from(st0, lv, i as int).addr,
                current_index <= 4 * i,
            decreases lines@.len() - i,
        {
            proof {
                assert(lines.deep_view()[i as int] =~= lines@[i as int]@);
            }
            let ghost pre_st = prepass_from(st0, lv, i as int);
            let mut frags = cleanup_frags(&lines[i]);
            assert(frags.deep_view() == clean_frags(lv[i as int]));
            if self.is_label_line(&frags) {
                self.handle_label_line(&mut frags, &mut current_index);
            } else {
                self.increment_index_for_non_label_line(&frags, &mut current_index);
            }
            self.add_clean_line(frags);
            i = i + 1;
        }
    }

    fn process_register(&self, item: &Vec<char>) -> (r: Option<u32>)
        ensures
            r == spec_process_register(item@),
    {
        let mut u = upper_chars(item);
        if u.len() >= 2 && u[0] == 'R' {
            u.remove(0);
            proof {
                assert(u@ =~= reg_name_core(item@));
            }
        }
        register_to_byte_chars(&u)
    }

    fn process_memory_address(&self, last_value: &Vec<char>) -> (r: Result<
        (Token, InstructionMode),
        AsmError,
    >)
        ensures
            match r {
                Ok((t, m)) => spec_memory_operand(last_value@) == Ok::<_, AsmError>((t@, m)),
                Err(e) => spec_memory_operand(last_value@) == Err::<(TokenView, InstructionMode), _>(
                    e,
                ),
            },
    {
        let inner = remove_char_exec(&remove_char_exec(last_value, '['), ']');
        if contains_char_exec(&inner, '+') {
            proof {
                lemma_split_char_contains(inner@, '+');
            }
            let parts = split_char_exec(&inner, '+');
            proof {
                assert(parts.deep_view()[0] =~= parts@[0]@);
                assert(parts.deep_view()[1] =~= parts@[1]@);
            }
            match self.process_register(&parts[0]) {
                Some(r) => match string_to_u32_chars(&parts[1]) {
                    Some(off) => Ok((Token::BaseOffset(r, off), InstructionMode::BaseOffset)),
                    None => Err(AsmError::MalformedNumericLiteral),
                },
                None => Err(AsmError::InvalidRegister),
            }
        } else {
            match self.process_register(&inner) {
                Some(r) => Ok((Token::Register(r), InstructionMode::RegisterIndirect)),
                None => Err(AsmError::InvalidRegister),
            }
        }
    }

    fn last_operand(&self, last: &Vec<char>) -> (r: Result<(Token, InstructionMode), AsmError>)
        ensures
            match r {
                Ok((t, m)) => spec_last_operand(last@) == Ok::<_, AsmError>((t@, m)),
                Err(e) => spec_last_operand(last@) == Err::<(TokenView, InstructionMode), _>(e),
            },
    {
        if contains_char_exec(last, '[') && contains_char_exec(last, ']') {
            self.process_memory_address(last)
        } else {
            match string_to_u32_chars(last) {
                Some(v) => Ok((Token::Value(v), InstructionMode::Immediate)),
                None => {
                    if has_numeric_marker_exec(last) {
                        Err(AsmError::MalformedNumericLiteral)
                    } else {
                        match self.process_register(last) {
                            Some(r) => Ok((Token::Register(r), InstructionMode::Register)),
                            None => Ok(
                                (Token::Label(chars_to_string(last)), InstructionMode::Immediate),
                            ),
                        }
                    }
                },
            }
        }
    }

    /// Turns one retained line into its token sequence, or fails with the
    /// error that aborts the run.
    #[verifier::loop_isolation(false)]
    #[verifier::rlimit(60)]
    fn tokenize_line(&self, frags: &Vec<Vec<char>>) -> (r: Result<Vec<Token>, AsmError>)
        ensures
            match r {
                Ok(ts) => spec_tokenize_line(frags.deep_view()) == Ok::<_, AsmError>(ts.deep_view()),
                Err(e) => spec_tokenize_line(frags.deep_view()) == Err::<Seq<TokenView>, _>(e),
            },
    {
        let ghost fv = frags.deep_view();
        let n = frags.len();
        if n == 0 {
            return Err(AsmError::InternalTokenInvariant);
        }
        if n > 4 {
            return Err(AsmError::TooManyTokens);
        }
        proof {
            assert(frags.deep_view()[0] =~= frags@[0]@);
        }
        let op = match Instructions::from_mnemonic_chars(&frags[0]) {
            Some(op) => op,
            None => {
                return Err(AsmError::UnknownInstruction);
            },
        };
        if n == 1 {
            let mut ts: Vec<Token> = Vec::new();
            ts.push(Token::OpCode(op));
            ts.push(Token::Mode(InstructionMode::Register));
            proof {
                assert(ts.deep_view() =~= seq![
                    TokenView::OpCode(op),
                    TokenView::Mode(InstructionMode::Register),
                ]);
            }
            return Ok(ts);
        }
        let ghost middles = fv.subrange(1, n - 1);
        let mut regs: Vec<u32> = Vec::new();
        let mut i: usize = 1;
        while i < n - 1
            invariant
                1 <= i <= n - 1,
                regs_of(middles.take(i - 1)) == Some(regs@),
            decreases n - i,
        {
            proof {
                assert(frags.deep_view()[i as int] =~= frags@[i as int]@);
                assert(middles.take(i as int).drop_last() =~= middles.take(i - 1));
                assert(middles.take(i as int).last() == fv[i as int]);
            }
            match self.process_register(&frags[i]) {
                Some(r) => {
                    regs.push(r);
                },
                None => {
                    proof {
                        lemma_regs_of_error(middles, i - 1);
                    }
                    return Err(AsmError::InvalidRegister);
                },
            }
            i = i + 1;
        }
        proof {
            assert(middles.take(middles.len() as int) =~= middles);
        }
        proof {
            assert(frags.deep_view()[n - 1] =~= frags@[n - 1]@);
            assert(fv.last() == fv[n - 1]);
        }
        let (last_token, mode) = match self.last_operand(&frags[n - 1]) {
            Ok(p) => p,
            Err(e) => {
                return Err(e);
            },
        };
        let mut ts: Vec<Token> = Vec::new();
        ts.push(Token::OpCode(op));
        ts.push(Token::Mode(mode));
        proof {
            assert(ts.deep_view() =~= seq![TokenView::OpCode(op), TokenView::Mode(mode)]
                + regs@.take(0).map_values(|x: u32| TokenView::Register(x)));
        }
        let mut j: usize = 0;
        while j < regs.len()
            invariant
                j <= regs@.len(),
                ts.deep_view() == seq![TokenView::OpCode(op), TokenView::Mode(mode)]
                    + regs@.take(j as int).map_values(|x: u32| TokenView::Register(x)),
            decreases regs@.len() - j,
        {
            let ghost pre = ts@;
            let ghost predv = ts.deep_view();
            ts.push(Token::Register(regs[j]));
            proof {
                let rhs = seq![TokenView::OpCode(op), TokenView::Mode(mode)] + regs@.take(
                    j + 1,
                ).map_values(|x: u32| TokenView::Register(x));
                assert forall|k: int| 0 <= k < ts@.len() implies ts.deep_view()[k] == rhs[k] by {
                    assert(ts.deep_view()[k] == ts@[k].deep_view());
                    if k < pre.len() {
                        assert(ts@[k] == pre[k]);
                        assert(predv[k] == pre[k].deep_view());
                        if 2 <= k {
                            assert(regs@.take(j as int)[k - 2] == regs@.take(j + 1)[k - 2]);
                        }
                    } else {
                        assert(k == pre.len());
                        assert(ts@[k] == Token::Register(regs@[j as int]));
                        assert(rhs[k] == TokenView::Register(regs@.take(j + 1)[j as int]));
                    }
                }
                assert(ts.deep_view() =~= rhs);
            }
            j = j + 1;
        }
        proof {
            assert(regs@.take(regs@.len() as int) =~= regs@);
        }
        let ghost pre = ts@;
        ts.push(last_token);
        proof {
            assert forall|k: int| 0 <= k < ts@.len() implies ts.deep_view()[k] == line_token_list(
                op,
                mode,
                regs@,
                last_token@,
            )[k] by {
                if k < pre.len() {
                    assert(ts@[k] == pre[k]);
                }
            }
            assert(ts.deep_view() =~= line_token_list(op, mode, regs@, last_token@));
        }
        Ok(ts)
    }

    /// Runs the label pre-pass and then tokenizes every retained line, in
    /// order; the first defective line aborts the whole run with its error.
    /// The source must stay below 2^28 characters so that every byte
    /// address fits in 32 bits.
    #[verifier::loop_isolation(false)]
    #[verifier::rlimit(60)]
    pub fn tokenize(&mut self, input: String) -> (r: Result<Vec<Vec<Token>>, AsmError>)
        requires
            input@.len() < 0x1000_0000,
        ensures
            final(self).labels_view() == spec_prepass(old(self).state(), input@).labels,
            final(self).clean_lines_view() == spec_prepass(old(self).state(), input@).retained,
            match r {
                Ok(ts) => spec_tokenize_lines(spec_prepass(old(self).state(), input@).retained)
                    == Ok::<_, AsmError>(ts.deep_view()),
                Err(e) => spec_tokenize_lines(spec_prepass(old(self).state(), input@).retained)
                    == Err::<Seq<Seq<TokenView>>, _>(e),
            },
    {
        self.label_prepass(input);
        let ghost retained = self.clean_lines_view();
        let mut tokens: Vec<Vec<Token>> = Vec::new();
        proof {
            assert(retained.take(0) =~= Seq::<Seq<Seq<char>>>::empty());
            assert(tokens.deep_view() =~= Seq::<Seq<TokenView>>::empty());
        }
        let mut i: usize = 0;
        while i < self.clean_lines.len()
            invariant
                i <= retained.len(),
                self.clean_lines_view() == retained,
                tokens@.len() == i,
                spec_tokenize_lines(retained.take(i as int)) == Ok::<_, AsmError>(
                    tokens.deep_view(),
                ),
            decreases retained.len() - i,
        {
            proof {
                assert(self.clean_lines.deep_view()[i as int] =~~= self.clean_lines@[i as
                    int].deep_view());
            }
            let line_tokens = match self.tokenize_line(&self.clean_lines[i]) {
                Ok(ts) => ts,
                Err(e) => {
                    proof {
                        lemma_tokenize_lines_error(retained, i as int, e);
                    }
                    return Err(e);
                },
            };
            let ghost pre = tokens@;
            tokens.push(line_tokens);
            proof {
                assert(retained.take(i as int + 1).drop_last() =~= retained.take(i as int));
                assert forall|k: int| 0 <= k < i + 1 implies tokens.deep_view()[k]
                    == spec_tokenize_lines(retained.take(i as int + 1))->Ok_0[k] by {
                    if k < i {
                        assert(tokens@[k] == pre[k]);
                    }
                }
                assert(tokens.deep_view() =~= spec_tokenize_lines(retained.take(i as int + 1))->Ok_0);
            }
            i = i + 1;
        }
        proof {
            assert(retained.take(retained.len() as int) =~= retained);
        }
        Ok(tokens)
    }

    /// Looks a label name up, case-insensitively; the first definition of a
    /// name wins.
    #[verifier::loop_isolation(false)]
    pub fn get_label_address(&self, label: &str) -> (r: Option<u32>)
        ensures
            r == spec_lookup_label(self.labels_view(), upper_seq(label@)),
    {
        let chars = str_to_chars(label);
        let up = upper_chars(&chars);
        let ghost name = upper_seq(label@);
        proof {
            assert(self.labels_view().skip(0) =~= self.labels_view());
        }
        let mut i: usize = 0;
        while i < self.labels.len()
            invariant
                i <= self.labels@.len(),
                spec_lookup_label(self.labels_view(), name) == spec_lookup_label(
                    self.labels_view().skip(i as int),
                    name,
                ),
            decreases self.labels@.len() - i,
        {
            proof {
                assert(self.labels.deep_view()[i as int].0 =~= self.labels@[i as int].0@);
                assert(self.labels_view().skip(i as int).first() == self.labels_view()[i as int]);
            }
            if chars_eq_str(&up, self.labels[i].0.as_str()) {
                return Some(self.labels[i].1);
            }
            proof {
                assert(self.labels_view().skip(i as int).drop_first() =~= self.labels_view().skip(
                    i as int + 1,
                ));
            }
            i = i + 1;
        }
        proof {
            assert(self.labels_view().skip(self.labels@.len() as int).len() == 0);
        }
        None
    }
}

} // verus!
