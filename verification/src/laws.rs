//! The general laws of the assembler, stated over the pipeline's spec
//! functions and proved once and for all: preprocessing is idempotent,
//! numeric address lines encode to their binary representation, predefined
//! symbols keep their fixed addresses, labels emit no code, variables get
//! consecutive addresses from 16, assembly is deterministic, and an
//! undefined symbol can never surface from the full pipeline.

use vstd::prelude::*;

use crate::code::binary16;
use crate::code::lemma_bit_group_lens;
use crate::instruction::SpecAsmError;
use crate::instruction::SpecInstruction;
use crate::instruction::encode_one;
use crate::parser::assemble;
use crate::parser::body_of;
use crate::parser::build_table_spec;
use crate::parser::classify;
use crate::parser::classify_all;
use crate::parser::comp_of;
use crate::parser::compute_ok;
use crate::parser::dest_of;
use crate::parser::digits_val;
use crate::parser::encode_all;
use crate::parser::has_dest;
use crate::parser::is_amd;
use crate::parser::is_digits;
use crate::parser::jump_of;
use crate::parser::labels_pass;
use crate::parser::preprocess;
use crate::parser::semi_pos;
use crate::parser::vars_pass;
use crate::symbol_table::predefined_map;
use crate::text::clean_line;
use crate::text::comment_start;
use crate::text::is_comment_at;
use crate::text::is_space;
use crate::text::lemma_comment_start;
use crate::text::lemma_comment_start_unique;
use crate::text::lemma_scan_end_while;
use crate::text::lemma_scan_end_while_unique;
use crate::text::lemma_scan_while;
use crate::text::lemma_scan_while_unique;
use crate::text::scan_end_while;
use crate::text::scan_while;
use crate::text::strip_comment;
use crate::text::trim_spec;

verus! {

/// A line that has been cleaned once is already clean: cleaning it again
/// changes nothing.
proof fn lemma_clean_line_fixed(s: Seq<char>)
    ensures
        clean_line(clean_line(s)) == clean_line(s),
{
    let sp = |c: char| is_space(c);
    lemma_comment_start(s);
    let t = strip_comment(s);
    let a = scan_while(t, sp);
    let b = scan_end_while(t, sp);
    lemma_scan_while(t, sp);
    lemma_scan_end_while(t, sp);
    let c = clean_line(s);
    assert forall|j: int| 0 <= j < c.len() implies !is_comment_at(c, j) by {
        if is_comment_at(c, j) {
            if a == t.len() {
                assert(c.len() == 0);
            } else {
                assert(c[j] == s[j + a] && c[j + 1] == s[j + a + 1]);
                assert(is_comment_at(s, j + a));
                assert(j + a < comment_start(s));
            }
        }
    }
    lemma_comment_start_unique(c, c.len() as int);
    assert(strip_comment(c) =~= c);
    if c.len() == 0 {
        lemma_scan_while_unique(c, sp, 0);
        assert(trim_spec(c) == c);
    } else {
        assert(a < t.len());
        assert(c[0] == t[a] && !sp(c[0]));
        assert(b > 0 ==> !sp(t[b - 1]));
        assert(b > a);
        assert(c[c.len() - 1] == t[b - 1] && !sp(c[c.len() - 1]));
        lemma_scan_while_unique(c, sp, 0);
        lemma_scan_end_while_unique(c, sp, c.len() as int);
        assert(trim_spec(c) =~= c);
    }
}

/// Every significant line is already clean and non-empty.
proof fn lemma_preprocess_output(lines: Seq<Seq<char>>)
    ensures
        forall|k: int|
            0 <= k < preprocess(lines).len() ==> (#[trigger] preprocess(lines)[k]).len() > 0
                && clean_line(preprocess(lines)[k]) == preprocess(lines)[k],
    decreases lines.len(),
{
    if lines.len() > 0 {
        lemma_preprocess_output(lines.drop_first());
        lemma_clean_line_fixed(lines[0]);
        let rest = preprocess(lines.drop_first());
        let cleaned = clean_line(lines[0]);
        assert forall|k: int| 0 <= k < preprocess(lines).len() implies (#[trigger] preprocess(
            lines,
        )[k]).len() > 0 && clean_line(preprocess(lines)[k]) == preprocess(lines)[k] by {
            if cleaned.len() == 0 {
                assert(preprocess(lines)[k] == rest[k]);
            } else if k == 0 {
                assert(preprocess(lines)[0] == cleaned);
            } else {
                assert(preprocess(lines)[k] == rest[k - 1]);
            }
        }
    }
}

/// A sequence of clean, non-empty lines passes through preprocessing
/// unchanged.
proof fn lemma_preprocess_fixed(lines: Seq<Seq<char>>)
    requires
        forall|k: int|
            0 <= k < lines.len() ==> (#[trigger] lines[k]).len() > 0 && clean_line(lines[k])
                == lines[k],
    ensures
        preprocess(lines) == lines,
    decreases lines.len(),
{
    if lines.len() == 0 {
        assert(preprocess(lines) =~= lines);
    } else {
        lemma_preprocess_fixed(lines.drop_first());
        assert(preprocess(lines) =~= lines);
    }
}

/// Preprocessing is idempotent: running it twice yields the same result as
/// running it once.
pub proof fn lemma_preprocess_idempotent(lines: Seq<Seq<char>>)
    ensures
        preprocess(preprocess(lines)) == preprocess(lines),
{
    lemma_preprocess_output(lines);
    lemma_preprocess_fixed(preprocess(lines));
}

/// A line of `@` followed by digits within the 15-bit range classifies as a
/// numeric address load, and encodes — against any table — to the 16-bit
/// zero-padded binary representation of its value.
pub proof fn lemma_numeric_address_line(line: Seq<char>, table: Map<Seq<char>, u16>)
    requires
        line.len() > 0,
        line[0] == '@',
        is_digits(line.skip(1)),
        digits_val(line.skip(1)) <= 32767,
    ensures
        classify(line) == Ok::<SpecInstruction, SpecAsmError>(
            SpecInstruction::AddressValue { value: digits_val(line.skip(1)) as u16 },
        ),
        encode_one(SpecInstruction::AddressValue { value: digits_val(line.skip(1)) as u16 }, table)
            == Ok::<Option<Seq<char>>, SpecAsmError>(
            Some(binary16(digits_val(line.skip(1)) as u16)),
        ),
{
}

/// A compute-form line decomposes exactly per the grammar
/// `[<dest>=]<comp>[;<jump>]`: the three fields partition the line around
/// its separators, `dest` holds register characters only, `comp` holds no
/// `;`, and `jump` is empty or exactly three characters.
pub proof fn lemma_compute_decomposition(line: Seq<char>)
    requires
        compute_ok(line),
    ensures
        line == (if has_dest(line) {
            dest_of(line).push('=')
        } else {
            Seq::empty()
        }) + comp_of(line) + (if jump_of(line).len() > 0 {
            seq![';'] + jump_of(line)
        } else {
            Seq::empty()
        }),
        forall|j: int| 0 <= j < dest_of(line).len() ==> is_amd(#[trigger] dest_of(line)[j]),
        forall|j: int| 0 <= j < comp_of(line).len() ==> #[trigger] comp_of(line)[j] != ';',
        jump_of(line).len() == 0 || jump_of(line).len() == 3,
{
    lemma_scan_while(line, |c: char| is_amd(c));
    let body = body_of(line);
    lemma_scan_while(body, |c: char| c != ';');
    let semi = semi_pos(body);
    if semi == body.len() {
        assert(line =~= (if has_dest(line) {
            dest_of(line).push('=')
        } else {
            Seq::empty()
        }) + comp_of(line) + (if jump_of(line).len() > 0 {
            seq![';'] + jump_of(line)
        } else {
            Seq::empty()
        }));
    } else {
        assert(body[semi] == ';');
        assert(jump_of(line).len() == 3);
        assert(line =~= (if has_dest(line) {
            dest_of(line).push('=')
        } else {
            Seq::empty()
        }) + comp_of(line) + (seq![';'] + jump_of(line)));
    }
}

/// The label pass never unbinds or rebinds a name that is already bound.
proof fn lemma_labels_pass_preserves(
    instrs: Seq<SpecInstruction>,
    rom: int,
    table: Map<Seq<char>, u16>,
    name: Seq<char>,
)
    requires
        table.dom().contains(name),
    ensures
        labels_pass(instrs, rom, table).dom().contains(name),
        labels_pass(instrs, rom, table)[name] == table[name],
    decreases instrs.len(),
{
    if instrs.len() > 0 {
        match instrs[0] {
            SpecInstruction::Label { name: label } => {
                if table.dom().contains(label) {
                    lemma_labels_pass_preserves(instrs.drop_first(), rom, table, name);
                } else {
                    lemma_labels_pass_preserves(
                        instrs.drop_first(),
                        rom,
                        table.insert(label, rom as u16),
                        name,
                    );
                }
            },
            _ => {
                lemma_labels_pass_preserves(instrs.drop_first(), rom + 1, table, name);
            },
        }
    }
}

/// The variable pass never unbinds or rebinds a name that is already bound.
proof fn lemma_vars_pass_preserves(
    instrs: Seq<SpecInstruction>,
    ram: int,
    table: Map<Seq<char>, u16>,
    name: Seq<char>,
)
    requires
        table.dom().contains(name),
    ensures
        vars_pass(instrs, ram, table).dom().contains(name),
        vars_pass(instrs, ram, table)[name] == table[name],
    decreases instrs.len(),
{
    if instrs.len() > 0 {
        match instrs[0] {
            SpecInstruction::AddressSymbol { name: symbol } => {
                if table.dom().contains(symbol) {
                    lemma_vars_pass_preserves(instrs.drop_first(), ram, table, name);
                } else {
                    lemma_vars_pass_preserves(
                        instrs.drop_first(),
                        ram + 1,
                        table.insert(symbol, ram as u16),
                        name,
                    );
                }
            },
            _ => {
                lemma_vars_pass_preserves(instrs.drop_first(), ram, table, name);
            },
        }
    }
}

/// Whatever the source holds, the symbol table built from it resolves every
/// predefined symbol to its fixed constant.
pub proof fn lemma_predefined_symbols_fixed(instrs: Seq<SpecInstruction>)
    ensures
        forall|name: Seq<char>|
            #[trigger] predefined_map().dom().contains(name) ==> build_table_spec(
                instrs,
            ).dom().contains(name) && build_table_spec(instrs)[name] == predefined_map()[name],
{
    assert forall|name: Seq<char>| #[trigger]
    predefined_map().dom().contains(name) implies build_table_spec(instrs).dom().contains(name)
        && build_table_spec(instrs)[name] == predefined_map()[name] by {
        lemma_labels_pass_preserves(instrs, 0, predefined_map(), name);
        lemma_vars_pass_preserves(instrs, 16, labels_pass(instrs, 0, predefined_map()), name);
    }
}

/// How many instructions of a sequence emit code: all but the labels.
pub open spec fn count_code(instrs: Seq<SpecInstruction>) -> int
    decreases instrs.len(),
{
    if instrs.len() == 0 {
        0
    } else {
        (match instrs[0] {
            SpecInstruction::Label { .. } => 0int,
            _ => 1int,
        }) + count_code(instrs.drop_first())
    }
}

/// Labels emit no output and every other instruction emits exactly one word:
/// a successful encoding has one word per non-label instruction.
pub proof fn lemma_labels_emit_nothing(instrs: Seq<SpecInstruction>, table: Map<Seq<char>, u16>)
    ensures
        encode_all(instrs, table) matches Ok(words) ==> words.len() == count_code(instrs),
    decreases instrs.len(),
{
    if instrs.len() > 0 {
        lemma_labels_emit_nothing(instrs.drop_first(), table);
    }
}

/// Every word a successful encoding emits is exactly 16 characters wide.
pub proof fn lemma_output_width(instrs: Seq<SpecInstruction>, table: Map<Seq<char>, u16>)
    ensures
        encode_all(instrs, table) matches Ok(words) ==> forall|k: int|
            0 <= k < words.len() ==> (#[trigger] words[k]).len() == 16,
    decreases instrs.len(),
{
    if instrs.len() > 0 {
        lemma_output_width(instrs.drop_first(), table);
        match instrs[0] {
            SpecInstruction::Compute { dest, comp, jump } => {
                lemma_bit_group_lens(dest, comp, jump);
            },
            _ => {},
        }
    }
}

/// The names of the still-unbound address symbols of a sequence, in order of
/// first appearance.
pub open spec fn fresh_symbols(instrs: Seq<SpecInstruction>, bound: Set<Seq<char>>) -> Seq<
    Seq<char>,
>
    decreases instrs.len(),
{
    if instrs.len() == 0 {
        Seq::empty()
    } else {
        match instrs[0] {
            SpecInstruction::AddressSymbol { name } => if bound.contains(name) {
                fresh_symbols(instrs.drop_first(), bound)
            } else {
                seq![name] + fresh_symbols(instrs.drop_first(), bound.insert(name))
            },
            _ => fresh_symbols(instrs.drop_first(), bound),
        }
    }
}

/// The variable pass binds the still-unbound symbols, in order of first
/// appearance, to consecutive addresses from its starting address on.
proof fn lemma_vars_pass_fresh(instrs: Seq<SpecInstruction>, ram: int, table: Map<Seq<char>, u16>)
    ensures
        forall|k: int|
            0 <= k < fresh_symbols(instrs, table.dom()).len() ==> vars_pass(
                instrs,
                ram,
                table,
            ).dom().contains(#[trigger] fresh_symbols(instrs, table.dom())[k]) && vars_pass(
                instrs,
                ram,
                table,
            )[fresh_symbols(instrs, table.dom())[k]] == ((ram + k) as u16),
    decreases instrs.len(),
{
    if instrs.len() > 0 {
        let rest = instrs.drop_first();
        let fresh = fresh_symbols(instrs, table.dom());
        match instrs[0] {
            SpecInstruction::AddressSymbol { name } => {
                if table.dom().contains(name) {
                    lemma_vars_pass_fresh(rest, ram, table);
                    assert forall|k: int| 0 <= k < fresh.len() implies vars_pass(
                        instrs,
                        ram,
                        table,
                    ).dom().contains(#[trigger] fresh[k]) && vars_pass(instrs, ram, table)[fresh[k]]
                        == ((ram + k) as u16) by {
                        assert(fresh[k] == fresh_symbols(rest, table.dom())[k]);
                    }
                } else {
                    let table2 = table.insert(name, ram as u16);
                    assert(table2.dom() =~= table.dom().insert(name));
                    lemma_vars_pass_fresh(rest, ram + 1, table2);
                    lemma_vars_pass_preserves(rest, ram + 1, table2, name);
                    assert forall|k: int| 0 <= k < fresh.len() implies vars_pass(
                        instrs,
                        ram,
                        table,
                    ).dom().contains(#[trigger] fresh[k]) && vars_pass(instrs, ram, table)[fresh[k]]
                        == ((ram + k) as u16) by {
                        if k == 0 {
                            assert(fresh[0] == name);
                        } else {
                            assert(fresh[k] == fresh_symbols(rest, table2.dom())[k - 1]);
                        }
                    }
                }
            },
            _ => {
                lemma_vars_pass_fresh(rest, ram, table);
                assert forall|k: int| 0 <= k < fresh.len() implies vars_pass(
                    instrs,
                    ram,
                    table,
                ).dom().contains(#[trigger] fresh[k]) && vars_pass(instrs, ram, table)[fresh[k]]
                    == ((ram + k) as u16) by {
                    assert(fresh[k] == fresh_symbols(rest, table.dom())[k]);
                }
            },
        }
    }
}

/// Variable symbols are assigned consecutive RAM addresses starting at 16 in
/// order of first appearance, skipping any name already claimed by a label
/// or a predefined symbol.
pub proof fn lemma_variable_addresses(instrs: Seq<SpecInstruction>)
    ensures
        ({
            let after_labels = labels_pass(instrs, 0, predefined_map());
            let fresh = fresh_symbols(instrs, after_labels.dom());
            forall|k: int|
                0 <= k < fresh.len() ==> build_table_spec(instrs).dom().contains(#[trigger] fresh[k])
                    && build_table_spec(instrs)[fresh[k]] == ((16 + k) as u16)
        }),
{
    lemma_vars_pass_fresh(instrs, 16, labels_pass(instrs, 0, predefined_map()));
}

/// Re-running the pipeline on identical input yields identical output:
/// assembly is a function of the line sequence alone.
pub proof fn lemma_assemble_deterministic(first: Seq<Seq<char>>, second: Seq<Seq<char>>)
    requires
        first == second,
    ensures
        assemble(first) == assemble(second),
{
}

/// After the variable pass, every address symbol of the sequence is bound.
proof fn lemma_vars_pass_complete(
    instrs: Seq<SpecInstruction>,
    ram: int,
    table: Map<Seq<char>, u16>,
)
    ensures
        forall|i: int|
            0 <= i < instrs.len() ==> match #[trigger] instrs[i] {
                SpecInstruction::AddressSymbol { name } => vars_pass(
                    instrs,
                    ram,
                    table,
                ).dom().contains(name),
                _ => true,
            },
    decreases instrs.len(),
{
    if instrs.len() > 0 {
        let rest = instrs.drop_first();
        match instrs[0] {
            SpecInstruction::AddressSymbol { name } => {
                if table.dom().contains(name) {
                    lemma_vars_pass_complete(rest, ram, table);
                    lemma_vars_pass_preserves(rest, ram, table, name);
                } else {
                    let table2 = table.insert(name, ram as u16);
                    lemma_vars_pass_complete(rest, ram + 1, table2);
                    lemma_vars_pass_preserves(rest, ram + 1, table2, name);
                }
            },
            _ => {
                lemma_vars_pass_complete(rest, ram, table);
            },
        }
        assert forall|i: int| 0 <= i < instrs.len() implies match #[trigger] instrs[i] {
            SpecInstruction::AddressSymbol { name } => vars_pass(
                instrs,
                ram,
                table,
            ).dom().contains(name),
            _ => true,
        } by {
            if i > 0 {
                assert(rest[i - 1] == instrs[i]);
            }
        }
    }
}

/// Encoding against a table that binds every address symbol of the sequence
/// never reports an undefined symbol.
proof fn lemma_encode_all_defined(instrs: Seq<SpecInstruction>, table: Map<Seq<char>, u16>)
    requires
        forall|i: int|
            0 <= i < instrs.len() ==> match #[trigger] instrs[i] {
                SpecInstruction::AddressSymbol { name } => table.dom().contains(name),
                _ => true,
            },
    ensures
        !(encode_all(instrs, table) matches Err(SpecAsmError::UndefinedSymbol { .. })),
    decreases instrs.len(),
{
    if instrs.len() > 0 {
        let rest = instrs.drop_first();
        assert(forall|i: int| 0 <= i < rest.len() ==> #[trigger] rest[i] == instrs[i + 1]);
        lemma_encode_all_defined(rest, table);
    }
}

/// Classification reports only malformed lines and numeric overflows.
proof fn lemma_classify_all_no_undefined(lines: Seq<Seq<char>>)
    ensures
        !(classify_all(lines) matches Err(SpecAsmError::UndefinedSymbol { .. })),
    decreases lines.len(),
{
    if lines.len() > 0 {
        lemma_classify_all_no_undefined(lines.drop_first());
    }
}

/// The full pipeline can never fail with an undefined symbol: the symbol
/// table is built from the very instruction sequence that is then encoded,
/// so every address symbol is bound before encoding begins.
pub proof fn lemma_no_undefined_symbol(lines: Seq<Seq<char>>)
    ensures
        !(assemble(lines) matches Err(SpecAsmError::UndefinedSymbol { .. })),
{
    lemma_classify_all_no_undefined(preprocess(lines));
    match classify_all(preprocess(lines)) {
        Ok(instrs) => {
            lemma_vars_pass_complete(instrs, 16, labels_pass(instrs, 0, predefined_map()));
            lemma_encode_all_defined(instrs, build_table_spec(instrs));
        },
        Err(..) => {},
    }
}

} // verus!
