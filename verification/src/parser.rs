//! The assembly pipeline: preprocessing raw lines into significant lines,
//! classifying each significant line as one instruction, building the symbol
//! table in two passes, and encoding the instruction sequence into binary
//! words.

use vstd::prelude::*;

use crate::code::binary16;
use crate::code::c_bits;
use crate::code::c_command_to_bin;
use crate::code::to_binary_string;
use crate::instruction::AsmError;
use crate::instruction::Instruction;
use crate::instruction::SpecAsmError;
use crate::instruction::SpecInstruction;
use crate::instruction::encode_one;
use crate::symbol_table::SymbolTable;
use crate::symbol_table::predefined_map;
use crate::text::clean;
use crate::text::clean_line;
use crate::text::lemma_scan_while_unique;
use crate::text::lemma_scan_end_while_unique;
use crate::text::scan_end_while;
use crate::text::scan_while;

verus! {

/// The significant lines of a raw line sequence: each line reduced to its
/// text before any comment and trimmed, empty results dropped, order kept.
pub open spec fn preprocess(lines: Seq<Seq<char>>) -> Seq<Seq<char>>
    decreases lines.len(),
{
    if lines.len() == 0 {
        Seq::empty()
    } else {
        let cleaned = clean_line(lines[0]);
        let rest = preprocess(lines.drop_first());
        if cleaned.len() == 0 {
            rest
        } else {
            seq![cleaned] + rest
        }
    }
}

/// Strip comments and whitespace from every line and drop the lines with
/// nothing left, preserving relative order.
pub fn remove_all_white_space_and_comments<'a>(lines: Vec<&'a str>) -> (r: Vec<&'a str>)
    ensures
        r.deep_view() == preprocess(lines.deep_view()),
        r@.len() <= lines@.len(),
{
    let mut result: Vec<&'a str> = Vec::new();
    let n = lines.len();
    proof {
        assert(lines.deep_view().skip(0) =~= lines.deep_view());
    }
    let mut i: usize = 0;
    while i < n
        invariant
            n == lines@.len(),
            i <= n,
            result@.len() <= i,
            preprocess(lines.deep_view()) == result.deep_view() + preprocess(
                lines.deep_view().skip(i as int),
            ),
        decreases n - i,
    {
        let trimmed = clean(lines[i]);
        let ghost before = result.deep_view();
        let ghost remaining = lines.deep_view().skip(i as int);
        proof {
            assert(remaining[0] == lines.deep_view()[i as int]);
            assert(remaining.drop_first() =~= lines.deep_view().skip(i as int + 1));
        }
        if !trimmed.is_empty() {
            result.push(trimmed);
            proof {
                assert(result.deep_view() =~= before.push(trimmed@));
                assert(before.push(trimmed@) + preprocess(remaining.drop_first()) =~= before + (
                seq![trimmed@] + preprocess(remaining.drop_first())));
            }
        }
        i = i + 1;
    }
    proof {
        assert(preprocess(lines.deep_view().skip(n as int)) =~= Seq::<Seq<char>>::empty());
        assert(result.deep_view() + Seq::<Seq<char>>::empty() =~= result.deep_view());
    }
    result
}

/// A decimal digit.
pub open spec fn is_digit(c: char) -> bool {
    48 <= c as u32 <= 57
}

/// One or more characters, all decimal digits.
pub open spec fn is_digits(s: Seq<char>) -> bool {
    s.len() > 0 && forall|i: int| 0 <= i < s.len() ==> is_digit(s[i])
}

/// The number the decimal digits of `s` spell.
pub open spec fn digits_val(s: Seq<char>) -> int
    decreases s.len(),
{
    if s.len() == 0 {
        0
    } else {
        digits_val(s.drop_last()) * 10 + (s.last() as u32 - 48)
    }
}

/// The position of the first `(` in `s`, or the length of `s`.
pub open spec fn first_lparen(s: Seq<char>) -> int {
    scan_while(s, |c: char| c != '(')
}

/// The position of the last `)` in `s`, or `-1`.
pub open spec fn last_rparen(s: Seq<char>) -> int {
    scan_end_while(s, |c: char| c != ')') - 1
}

/// The line holds a `(` with a `)` somewhere after it.
pub open spec fn is_label_line(s: Seq<char>) -> bool {
    first_lparen(s) < last_rparen(s)
}

/// The bracketed text: between the first `(` and the last `)`.
pub open spec fn label_name(s: Seq<char>) -> Seq<char> {
    s.subrange(first_lparen(s) + 1, last_rparen(s))
}

/// A destination-register character.
pub open spec fn is_amd(c: char) -> bool {
    c == 'A' || c == 'M' || c == 'D'
}

/// The length of the leading run of destination-register characters.
pub open spec fn amd_len(s: Seq<char>) -> int {
    scan_while(s, |c: char| is_amd(c))
}

/// A compute line carries a `dest` field: its leading register run is
/// followed immediately by `=`.
pub open spec fn has_dest(s: Seq<char>) -> bool {
    amd_len(s) < s.len() && s[amd_len(s)] == '='
}

/// The `dest` field of a compute line; empty when absent.
pub open spec fn dest_of(s: Seq<char>) -> Seq<char> {
    if has_dest(s) {
        s.take(amd_len(s))
    } else {
        Seq::empty()
    }
}

/// The part of a compute line after the optional `dest=`.
pub open spec fn body_of(s: Seq<char>) -> Seq<char> {
    if has_dest(s) {
        s.skip(amd_len(s) + 1)
    } else {
        s
    }
}

/// The position of the first `;` in `s`, or the length of `s`.
pub open spec fn semi_pos(s: Seq<char>) -> int {
    scan_while(s, |c: char| c != ';')
}

/// The `comp` field of a compute line: between the optional `=` and the
/// optional `;`.
pub open spec fn comp_of(s: Seq<char>) -> Seq<char> {
    body_of(s).take(semi_pos(body_of(s)))
}

/// The `jump` field of a compute line: the three characters after the `;`;
/// empty when no `;` occurs.
pub open spec fn jump_of(s: Seq<char>) -> Seq<char> {
    let body = body_of(s);
    if semi_pos(body) == body.len() {
        Seq::empty()
    } else {
        body.skip(semi_pos(body) + 1)
    }
}

/// The line fits the compute template: either no `;` occurs, or exactly
/// three characters follow the first one.
pub open spec fn compute_ok(s: Seq<char>) -> bool {
    let body = body_of(s);
    semi_pos(body) == body.len() || body.len() - semi_pos(body) - 1 == 3
}

/// What classifying one significant line yields.  A line starting `@` is an
/// address load: a numeric one when the rest is all digits — an error beyond
/// the 15-bit range — and a symbolic one otherwise.  A remaining line with a
/// bracketed name is a label.  Anything else must fit the compute template.
pub open spec fn classify(line: Seq<char>) -> Result<SpecInstruction, SpecAsmError> {
    if line.len() > 0 && line[0] == '@' {
        let rest = line.skip(1);
        if is_digits(rest) {
            if digits_val(rest) <= 32767 {
                Ok(SpecInstruction::AddressValue { value: digits_val(rest) as u16 })
            } else {
                Err(SpecAsmError::NumericOverflow { line })
            }
        } else {
            Ok(SpecInstruction::AddressSymbol { name: rest })
        }
    } else if is_label_line(line) {
        Ok(SpecInstruction::Label { name: label_name(line) })
    } else if compute_ok(line) {
        Ok(
            SpecInstruction::Compute {
                dest: dest_of(line),
                comp: comp_of(line),
                jump: jump_of(line),
            },
        )
    } else {
        Err(SpecAsmError::MalformedInstruction { line })
    }
}

/// The view of a classification outcome.
pub open spec fn classified_view(r: Result<Instruction, AsmError>) -> Result<
    SpecInstruction,
    SpecAsmError,
> {
    match r {
        Ok(inst) => Ok(inst@),
        Err(e) => Err(e@),
    }
}

/// What classifying every significant line yields: the instruction sequence
/// in order, or the first line's error.
pub open spec fn classify_all(lines: Seq<Seq<char>>) -> Result<Seq<SpecInstruction>, SpecAsmError>
    decreases lines.len(),
{
    if lines.len() == 0 {
        Ok(Seq::empty())
    } else {
        match classify(lines[0]) {
            Err(e) => Err(e),
            Ok(inst) => match classify_all(lines.drop_first()) {
                Err(e) => Err(e),
                Ok(rest) => Ok(seq![inst] + rest),
            },
        }
    }
}

/// What encoding every instruction against a resolved table yields: one word
/// per non-label instruction in order, or the first instruction's error.
pub open spec fn encode_all(instrs: Seq<SpecInstruction>, table: Map<Seq<char>, u16>) -> Result<
    Seq<Seq<char>>,
    SpecAsmError,
>
    decreases instrs.len(),
{
    if instrs.len() == 0 {
        Ok(Seq::empty())
    } else {
        match encode_one(instrs[0], table) {
            Err(e) => Err(e),
            Ok(word) => match encode_all(instrs.drop_first(), table) {
                Err(e) => Err(e),
                Ok(rest) => Ok(
                    match word {
                        Some(w) => seq![w] + rest,
                        None => rest,
                    },
                ),
            },
        }
    }
}

/// What the full pipeline yields on a raw line sequence: preprocess,
/// classify, build the symbol table, encode.
pub open spec fn assemble(lines: Seq<Seq<char>>) -> Result<Seq<Seq<char>>, SpecAsmError> {
    match classify_all(preprocess(lines)) {
        Err(e) => Err(e),
        Ok(instrs) => encode_all(instrs, build_table_spec(instrs)),
    }
}

/// The view of a full assembly outcome.
pub open spec fn assembled_view(r: Result<Vec<String>, AsmError>) -> Result<
    Seq<Seq<char>>,
    SpecAsmError,
> {
    match r {
        Ok(words) => Ok(words.deep_view()),
        Err(e) => Err(e@),
    }
}

/// Assemble a raw source-line sequence into one 16-character binary word per
/// non-label instruction, in source order, or stop at the first malformed
/// line, out-of-range address literal, or unresolved symbol.
#[verifier::loop_isolation(false)]
pub fn binary_code_from(lines: Vec<&str>) -> (r: Result<Vec<String>, AsmError>)
    requires
        lines@.len() <= 32767,
    ensures
        assembled_view(r) == assemble(lines.deep_view()),
{
    let ghost raw = lines.deep_view();
    let ghost significant = preprocess(raw);
    let filtered_lines = remove_all_white_space_and_comments(lines);
    let mut instructions: Vec<Instruction> = Vec::new();
    let n = filtered_lines.len();
    proof {
        assert(significant.skip(0) =~= significant);
        assert(instructions.deep_view() =~= Seq::<SpecInstruction>::empty());
    }
    let mut i: usize = 0;
    while i < n
        invariant
            n == filtered_lines@.len(),
            n <= 32767,
            significant == filtered_lines.deep_view(),
            i <= n,
            instructions@.len() == i,
            classify_all(significant) == match classify_all(significant.skip(i as int)) {
                Ok(rest) => Ok::<Seq<SpecInstruction>, SpecAsmError>(
                    instructions.deep_view() + rest,
                ),
                Err(e) => Err(e),
            },
        decreases n - i,
    {
        proof {
            assert(significant.skip(i as int)[0] == significant[i as int]);
            assert(significant.skip(i as int).drop_first() =~= significant.skip(i as int + 1));
        }
        let ghost before = instructions.deep_view();
        match build_instruction(filtered_lines[i]) {
            Ok(inst) => {
                let ghost inst_model = inst@;
                instructions.push(inst);
                proof {
                    assert(instructions.deep_view() =~= before.push(inst_model));
                    assert(forall|rest: Seq<SpecInstruction>|
                        #[trigger] (before.push(inst_model) + rest) =~= before + (seq![inst_model]
                            + rest));
                }
            },
            Err(e) => {
                proof {
                    assert(classify_all(significant) == Err::<Seq<SpecInstruction>, _>(e@));
                }
                return Err(e);
            },
        }
        i = i + 1;
    }
    let ghost models = instructions.deep_view();
    proof {
        assert(significant.skip(n as int) =~= Seq::<Seq<char>>::empty());
        assert(models + Seq::<SpecInstruction>::empty() =~= models);
        assert(classify_all(significant) == Ok::<Seq<SpecInstruction>, SpecAsmError>(models));
    }
    let symbol_table = build_symbol_table(&instructions);
    let mut result: Vec<String> = Vec::new();
    proof {
        assert(models.skip(0) =~= models);
        assert(result.deep_view() =~= Seq::<Seq<char>>::empty());
    }
    let mut i: usize = 0;
    while i < n
        invariant
            n == instructions@.len(),
            models == instructions.deep_view(),
            symbol_table@ == build_table_spec(models),
            i <= n,
            encode_all(models, symbol_table@) == match encode_all(
                models.skip(i as int),
                symbol_table@,
            ) {
                Ok(rest) => Ok::<Seq<Seq<char>>, SpecAsmError>(result.deep_view() + rest),
                Err(e) => Err(e),
            },
        decreases n - i,
    {
        proof {
            assert(models.skip(i as int)[0] == models[i as int]);
            assert(models.skip(i as int).drop_first() =~= models.skip(i as int + 1));
        }
        let ghost before = result.deep_view();
        match instructions[i].to_bin(&symbol_table) {
            Ok(Some(word)) => {
                let ghost word_model = word@;
                result.push(word);
                proof {
                    assert(result.deep_view() =~= before.push(word_model));
                    assert(forall|rest: Seq<Seq<char>>|
                        #[trigger] (before.push(word_model) + rest) =~= before + (seq![word_model]
                            + rest));
                }
            },
            Ok(None) => {},
            Err(e) => {
                proof {
                    assert(encode_all(models, symbol_table@) == Err::<Seq<Seq<char>>, _>(e@));
                }
                return Err(e);
            },
        }
        i = i + 1;
    }
    proof {
        assert(models.skip(n as int) =~= Seq::<SpecInstruction>::empty());
        assert(result.deep_view() + Seq::<Seq<char>>::empty() =~= result.deep_view());
    }
    Ok(result)
}

/// A line that stands alone as one instruction word: a numeric address load
/// or a compute instruction.
pub open spec fn is_single_line(s: Seq<char>) -> bool {
    match classify(s) {
        Ok(SpecInstruction::AddressValue { .. }) => true,
        Ok(SpecInstruction::Compute { .. }) => true,
        _ => false,
    }
}

/// The word a stand-alone line encodes to: the address in binary, or the
/// compute word with an empty bit-group for a mnemonic outside its table.
pub open spec fn single_line_bits(s: Seq<char>) -> Seq<char> {
    match classify(s) {
        Ok(SpecInstruction::AddressValue { value }) => binary16(value),
        Ok(SpecInstruction::Compute { dest, comp, jump }) => c_bits(dest, comp, jump),
        _ => Seq::empty(),
    }
}

/// Translate one stand-alone line — a numeric address load or a compute
/// instruction — directly into its binary word, with no symbol table.
pub fn code_to_bin(code: &str) -> (r: String)
    requires
        is_single_line(code@),
    ensures
        r@ == single_line_bits(code@),
{
    match build_instruction(code) {
        Ok(Instruction::AddressValue { value }) => to_binary_string(value),
        Ok(Instruction::Compute { dest, comp, jump }) => c_command_to_bin(dest, comp, jump),
        _ => unreached(),
    }
}

/// How the digits after `@` parse.
enum DigitsParse {
    /// Some character is not a decimal digit, or there are none.
    NotNumeric,
    /// All digits, but beyond the 15-bit range.
    TooLarge,
    /// All digits, within range.
    Value(u16),
}

fn parse_digits(s: &str) -> (r: DigitsParse)
    ensures
        match r {
            DigitsParse::NotNumeric => !is_digits(s@),
            DigitsParse::TooLarge => is_digits(s@) && digits_val(s@) > 32767,
            DigitsParse::Value(v) => is_digits(s@) && digits_val(s@) == v as int && v <= 32767,
        },
{
    let n = s.unicode_len();
    if n == 0 {
        return DigitsParse::NotNumeric;
    }
    let mut acc: u32 = 0;
    let mut too_large = false;
    let mut i: usize = 0;
    while i < n
        invariant
            n == s@.len(),
            i <= n,
            forall|j: int| 0 <= j < i ==> is_digit(#[trigger] s@[j]),
            !too_large ==> acc == digits_val(s@.take(i as int)) && acc <= 32767,
            too_large ==> digits_val(s@.take(i as int)) > 32767,
        decreases n - i,
    {
        let c = s.get_char(i);
        let code = c as u32;
        if code < 48 || code > 57 {
            return DigitsParse::NotNumeric;
        }
        proof {
            assert(s@.take(i as int + 1).drop_last() =~= s@.take(i as int));
            assert(s@.take(i as int + 1).last() == s@[i as int]);
        }
        if too_large {
        } else {
            let next = acc * 10 + (code - 48);
            if next > 32767 {
                too_large = true;
            } else {
                acc = next;
            }
        }
        i = i + 1;
    }
    proof {
        assert(s@.take(n as int) =~= s@);
    }
    if too_large {
        DigitsParse::TooLarge
    } else {
        DigitsParse::Value(acc as u16)
    }
}

fn parse_label(line: &str) -> (r: Option<String>)
    ensures
        match r {
            Some(name) => is_label_line(line@) && name@ == label_name(line@),
            None => !is_label_line(line@),
        },
{
    let n = line.unicode_len();
    let mut i: usize = 0;
    while i < n && line.get_char(i) != '('
        invariant
            n == line@.len(),
            i <= n,
            forall|j: int| 0 <= j < i ==> line@[j] != '(',
        decreases n - i,
    {
        i = i + 1;
    }
    proof {
        lemma_scan_while_unique(line@, |c: char| c != '(', i as int);
    }
    let mut b: usize = n;
    while b > 0 && line.get_char(b - 1) != ')'
        invariant
            n == line@.len(),
            b <= n,
            forall|j: int| b <= j < n ==> line@[j] != ')',
        decreases b,
    {
        b = b - 1;
    }
    proof {
        lemma_scan_end_while_unique(line@, |c: char| c != ')', b as int);
    }
    if b > 0 && i < b - 1 {
        let name = line.substring_char(i + 1, b - 1);
        proof {
            assert(name@ =~= label_name(line@));
        }
        Some(String::from_str(name))
    } else {
        None
    }
}

fn is_amd_char(c: char) -> (r: bool)
    ensures
        r == is_amd(c),
{
    c == 'A' || c == 'M' || c == 'D'
}

fn parse_compute(line: &str) -> (r: Result<Instruction, AsmError>)
    ensures
        match r {
            Ok(inst) => compute_ok(line@) && inst@ == (SpecInstruction::Compute {
                dest: dest_of(line@),
                comp: comp_of(line@),
                jump: jump_of(line@),
            }),
            Err(e) => !compute_ok(line@) && e@ == (SpecAsmError::MalformedInstruction {
                line: line@,
            }),
        },
{
    let n = line.unicode_len();
    let mut a: usize = 0;
    while a < n && is_amd_char(line.get_char(a))
        invariant
            n == line@.len(),
            a <= n,
            forall|j: int| 0 <= j < a ==> is_amd(#[trigger] line@[j]),
        decreases n - a,
    {
        a = a + 1;
    }
    proof {
        lemma_scan_while_unique(line@, |c: char| is_amd(c), a as int);
    }
    let has = a < n && line.get_char(a) == '=';
    let dest: &str = if has {
        line.substring_char(0, a)
    } else {
        line.substring_char(0, 0)
    };
    let body_start: usize = if has {
        a + 1
    } else {
        0
    };
    let ghost body = body_of(line@);
    proof {
        assert(has == has_dest(line@));
        assert(dest@ =~= dest_of(line@));
        assert(body =~= line@.skip(body_start as int));
    }
    let mut k: usize = body_start;
    while k < n && line.get_char(k) != ';'
        invariant
            n == line@.len(),
            body_start <= k <= n,
            forall|j: int| body_start <= j < k ==> line@[j] != ';',
        decreases n - k,
    {
        k = k + 1;
    }
    proof {
        assert(forall|j: int|
            0 <= j < k - body_start ==> #[trigger] body[j] == line@[j + body_start]);
        lemma_scan_while_unique(body, |c: char| c != ';', k as int - body_start as int);
    }
    let comp = line.substring_char(body_start, k);
    proof {
        assert(comp@ =~= comp_of(line@));
    }
    if k == n {
        let jump = line.substring_char(n, n);
        proof {
            assert(jump@ =~= jump_of(line@));
        }
        Ok(
            Instruction::Compute {
                dest: String::from_str(dest),
                comp: String::from_str(comp),
                jump: String::from_str(jump),
            },
        )
    } else if n - k - 1 == 3 {
        let jump = line.substring_char(k + 1, n);
        proof {
            assert(jump@ =~= jump_of(line@));
        }
        Ok(
            Instruction::Compute {
                dest: String::from_str(dest),
                comp: String::from_str(comp),
                jump: String::from_str(jump),
            },
        )
    } else {
        Err(AsmError::MalformedInstruction { line: String::from_str(line) })
    }
}

/// Pass 1 of the symbol table build, walking the instructions from `instrs`
/// on.  A label is bound to the current ROM address unless its name is
/// already bound — the first definition wins; every other instruction kind
/// consumes one ROM address.
pub open spec fn labels_pass(
    instrs: Seq<SpecInstruction>,
    rom: int,
    table: Map<Seq<char>, u16>,
) -> Map<Seq<char>, u16>
    decreases instrs.len(),
{
    if instrs.len() == 0 {
        table
    } else {
        match instrs[0] {
            SpecInstruction::Label { name } => labels_pass(
                instrs.drop_first(),
                rom,
                if table.dom().contains(name) {
                    table
                } else {
                    table.insert(name, rom as u16)
                },
            ),
            _ => labels_pass(instrs.drop_first(), rom + 1, table),
        }
    }
}

/// Pass 2 of the symbol table build, walking the instructions from `instrs`
/// on.  Each address symbol whose name is still unbound is bound to the
/// current RAM address, which then advances by one.
pub open spec fn vars_pass(
    instrs: Seq<SpecInstruction>,
    ram: int,
    table: Map<Seq<char>, u16>,
) -> Map<Seq<char>, u16>
    decreases instrs.len(),
{
    if instrs.len() == 0 {
        table
    } else {
        match instrs[0] {
            SpecInstruction::AddressSymbol { name } => if table.dom().contains(name) {
                vars_pass(instrs.drop_first(), ram, table)
            } else {
                vars_pass(instrs.drop_first(), ram + 1, table.insert(name, ram as u16))
            },
            _ => vars_pass(instrs.drop_first(), ram, table),
        }
    }
}

/// The symbol table an instruction sequence determines: the predefined
/// symbols, then the label pass with ROM addresses from 0, then the variable
/// pass with RAM addresses from 16.
pub open spec fn build_table_spec(instrs: Seq<SpecInstruction>) -> Map<Seq<char>, u16> {
    vars_pass(instrs, 16, labels_pass(instrs, 0, predefined_map()))
}

/// Build the symbol table for an instruction sequence: a label pass
/// assigning ROM addresses, then a variable pass assigning RAM addresses in
/// order of first appearance.
pub fn build_symbol_table(instructions: &Vec<Instruction>) -> (r: SymbolTable)
    requires
        instructions@.len() <= 32767,
    ensures
        r@ == build_table_spec(instructions.deep_view()),
{
    let ghost models = instructions.deep_view();
    let mut symbol_table = SymbolTable::new();
    let n = instructions.len();
    proof {
        assert(models.skip(0) =~= models);
    }
    let mut rom_address: u16 = 0;
    let mut i: usize = 0;
    while i < n
        invariant
            n == instructions@.len(),
            n <= 32767,
            models == instructions.deep_view(),
            i <= n,
            rom_address <= i,
            labels_pass(models, 0, predefined_map()) == labels_pass(
                models.skip(i as int),
                rom_address as int,
                symbol_table@,
            ),
        decreases n - i,
    {
        proof {
            assert(models.skip(i as int)[0] == models[i as int]);
            assert(models.skip(i as int).drop_first() =~= models.skip(i as int + 1));
        }
        match &instructions[i] {
            Instruction::Label { name } => {
                symbol_table.add_entry(name.as_str(), rom_address);
            },
            _ => {
                rom_address = rom_address + 1;
            },
        }
        i = i + 1;
    }
    let ghost after_labels = symbol_table@;
    proof {
        assert(models.skip(n as int) =~= Seq::<SpecInstruction>::empty());
        assert(after_labels == labels_pass(models, 0, predefined_map()));
        assert(models.skip(0) =~= models);
    }
    let mut ram_address: u16 = 16;
    let mut i: usize = 0;
    while i < n
        invariant
            n == instructions@.len(),
            n <= 32767,
            models == instructions.deep_view(),
            i <= n,
            16 <= ram_address,
            ram_address <= 16 + i,
            vars_pass(models, 16, after_labels) == vars_pass(
                models.skip(i as int),
                ram_address as int,
                symbol_table@,
            ),
        decreases n - i,
    {
        proof {
            assert(models.skip(i as int)[0] == models[i as int]);
            assert(models.skip(i as int).drop_first() =~= models.skip(i as int + 1));
        }
        match &instructions[i] {
            Instruction::AddressSymbol { name } => {
                if !symbol_table.contains(name.as_str()) {
                    symbol_table.add_entry(name.as_str(), ram_address);
                    ram_address = ram_address + 1;
                }
            },
            _ => {},
        }
        i = i + 1;
    }
    proof {
        assert(models.skip(n as int) =~= Seq::<SpecInstruction>::empty());
    }
    symbol_table
}

/// Classify one significant line as an instruction, or report why it fits no
/// instruction-line grammar.
pub fn build_instruction(line: &str) -> (r: Result<Instruction, AsmError>)
    ensures
        classified_view(r) == classify(line@),
{
    let n = line.unicode_len();
    if n > 0 && line.get_char(0) == '@' {
        let rest = line.substring_char(1, n);
        proof {
            assert(rest@ =~= line@.skip(1));
        }
        match parse_digits(rest) {
            DigitsParse::NotNumeric => Ok(
                Instruction::AddressSymbol { name: String::from_str(rest) },
            ),
            DigitsParse::TooLarge => Err(
                AsmError::NumericOverflow { line: String::from_str(line) },
            ),
            DigitsParse::Value(v) => Ok(Instruction::AddressValue { value: v }),
        }
    } else {
        match parse_label(line) {
            Some(name) => Ok(Instruction::Label { name }),
            None => parse_compute(line),
        }
    }
}

} // verus!
