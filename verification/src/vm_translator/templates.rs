//! The translator that writes the assembly of a VM command by filling in a
//! template.
use crate::text::{decimal, push_decimal, str_eq};
use crate::vm_translator::ir::{is_comparison, segment_base, LowerError};
use crate::vm_translator::parser::{VmCommand, VmCommandModel};
use vstd::prelude::*;
use vstd::string::*;

verus! {

pub const LOGICAL_OR_MATH_TEMPLATE: &'static str =
    "// MATH or LOGICAL {operation}\n@SP\nAM=M-1\nD=M\nA=A-1\nM={operation}\n";

pub const NEG: &'static str = "// neg\n@SP\nA=M-1\nM=-M\n";

pub const NOT: &'static str = "// not\n@SP\nA=M-1\nM=!M\n";

pub const GT_LT_TEMPLATE: &'static str =
    "// OPERATION IS LOGICAL {jump_condition}\n@SP\nAM=M-1\nD=M\nA=A-1\nD=M-D\n@{jump_condition}_TRUE_{postfix}\nD;{jump_condition}\n@SP\nA=M-1\nM=0\n@{jump_condition}_END_{postfix}\n0;JMP\n({jump_condition}_TRUE_{postfix})\n@SP\nA=M-1\nM=-1\n({jump_condition}_END_{postfix})\n";

pub const PUSH_REF_TEMPLATE: &'static str =
    "// PUSH {segment} {index}\n@{index}\nD=A\n@{segment}\nA=D+M\nD=M\n@SP\nA=M\nM=D\n@SP\nM=M+1\n";

pub const PUSH_DIRECT_TEMPLATE: &'static str =
    "// PUSH {address}\n@{address}\n{target}\n@SP\nA=M\nM=D\n@SP\nM=M+1\n";

pub const POP_REF_TEMPLATE: &'static str =
    "// POP {segment} {index}\n@{index}\nD=A\n@{segment}\nD=D+M\n@R13\nM=D\n@SP\nAM=M-1\nD=M\n@R13\nA=M\nM=D\n";

pub const POP_DIRECT_TEMPLATE: &'static str = "// POP {address}\n@SP\nAM=M-1\nD=M\n@{address}\nM=D\n";

/// The placeholders of a template and what each is replaced by.
pub type Replacements = Seq<(Seq<char>, Seq<char>)>;

/// Whether `find`, which is not empty, stands in a text at offset `i`.
pub open spec fn stands_at(text: Seq<char>, i: int, find: Seq<char>) -> bool {
    0 < find.len() && i + find.len() <= text.len() && text.subrange(i, i + find.len()) == find
}

/// The index, from `k` on, of the first placeholder that stands in the text
/// at offset `i`, or the number of placeholders where none does.
pub open spec fn placeholder_at(text: Seq<char>, i: int, replacements: Replacements, k: int) -> int
    decreases replacements.len() - k,
{
    if k < 0 || k >= replacements.len() || stands_at(text, i, replacements[k].0) {
        k
    } else {
        placeholder_at(text, i, replacements, k + 1)
    }
}

/// The text from offset `i` on with its placeholders replaced, read from
/// left to right: where a placeholder stands, its replacement is written
/// and the placeholder passed over; any other character is kept.
pub open spec fn filled_in(text: Seq<char>, i: int, replacements: Replacements) -> Seq<char>
    decreases text.len() - i,
{
    if i < 0 || i >= text.len() {
        Seq::empty()
    } else {
        let k = placeholder_at(text, i, replacements, 0);
        if 0 <= k < replacements.len() && stands_at(text, i, replacements[k].0) {
            replacements[k].1 + filled_in(text, i + replacements[k].0.len(), replacements)
        } else {
            seq![text[i]] + filled_in(text, i + 1, replacements)
        }
    }
}

/// The placeholders and their replacements as texts.
pub open spec fn texts_of(replacements: Seq<(&str, &str)>) -> Replacements {
    Seq::new(replacements.len(), |k: int| (replacements[k].0@, replacements[k].1@))
}

/// The assembly of a binary arithmetic or logical command.
pub open spec fn math_text(operation: Seq<char>) -> Seq<char> {
    filled_in(LOGICAL_OR_MATH_TEMPLATE@, 0, seq![("{operation}"@, operation)])
}

/// The assembly of a comparison, the `counter`-th of its file.
pub open spec fn comparison_text(condition: Seq<char>, postfix: Seq<char>, counter: u16) -> Seq<
    char,
> {
    filled_in(
        GT_LT_TEMPLATE@,
        0,
        seq![
            ("{postfix}"@, postfix + "_"@ + decimal(counter as nat)),
            ("{jump_condition}"@, condition),
        ],
    )
}

/// The assembly that pushes the cell at `address`, or the number itself
/// where `target` loads from A.
pub open spec fn push_direct_text(address: Seq<char>, target: Seq<char>) -> Seq<char> {
    filled_in(PUSH_DIRECT_TEMPLATE@, 0, seq![("{address}"@, address), ("{target}"@, target)])
}

/// The assembly that pops into the cell at `address`.
pub open spec fn pop_direct_text(address: Seq<char>) -> Seq<char> {
    filled_in(POP_DIRECT_TEMPLATE@, 0, seq![("{address}"@, address)])
}

/// The assembly of `push segment index`.
pub open spec fn push_text(segment: Seq<char>, index: u16, postfix: Seq<char>) -> Result<
    Seq<char>,
    LowerError,
> {
    if segment == "constant"@ {
        Ok(push_direct_text(decimal(index as nat), "D=A"@))
    } else if segment == "static"@ {
        Ok(push_direct_text(postfix + "."@ + decimal(index as nat), "D=M"@))
    } else if segment == "pointer"@ && index == 0 {
        Ok(push_direct_text("THIS"@, "D=M"@))
    } else if segment == "pointer"@ && index == 1 {
        Ok(push_direct_text("THAT"@, "D=M"@))
    } else if segment == "temp"@ {
        Ok(push_direct_text(decimal((5 + index) as nat), "D=M"@))
    } else {
        match segment_base(segment) {
            Some(base) => Ok(
                filled_in(
                    PUSH_REF_TEMPLATE@,
                    0,
                    seq![("{segment}"@, base), ("{index}"@, decimal(index as nat))],
                ),
            ),
            None => Err(LowerError::InvalidSegment),
        }
    }
}

/// The assembly of `pop segment index`.
pub open spec fn pop_text(segment: Seq<char>, index: u16, postfix: Seq<char>) -> Result<
    Seq<char>,
    LowerError,
> {
    if segment == "static"@ {
        Ok(pop_direct_text(postfix + "."@ + decimal(index as nat)))
    } else if segment == "pointer"@ && index == 0 {
        Ok(pop_direct_text("THIS"@))
    } else if segment == "pointer"@ && index == 1 {
        Ok(pop_direct_text("THAT"@))
    } else if segment == "temp"@ {
        Ok(pop_direct_text("R"@ + decimal((5 + index) as nat)))
    } else {
        match segment_base(segment) {
            Some(base) => Ok(
                filled_in(
                    POP_REF_TEMPLATE@,
                    0,
                    seq![("{segment}"@, base), ("{index}"@, decimal(index as nat))],
                ),
            ),
            None => Err(LowerError::InvalidSegment),
        }
    }
}

/// The assembly of a command, where `counter` comparisons have been
/// translated before.
pub open spec fn asm_text(command: VmCommandModel, postfix: Seq<char>, counter: u16) -> Result<
    Seq<char>,
    LowerError,
> {
    match command {
        VmCommandModel::Add => Ok(math_text("D+M"@)),
        VmCommandModel::Sub => Ok(math_text("M-D"@)),
        VmCommandModel::And => Ok(math_text("D&M"@)),
        VmCommandModel::Or => Ok(math_text("D|M"@)),
        VmCommandModel::Neg => Ok(NEG@),
        VmCommandModel::Not => Ok(NOT@),
        VmCommandModel::Gt => Ok(comparison_text("JGT"@, postfix, counter)),
        VmCommandModel::Lt => Ok(comparison_text("JLT"@, postfix, counter)),
        VmCommandModel::Eq => Ok(comparison_text("JEQ"@, postfix, counter)),
        VmCommandModel::Push { segment, index } => push_text(segment, index, postfix),
        VmCommandModel::Pop { segment, index } => pop_text(segment, index, postfix),
    }
}

/// Whether a command addresses a temp register, whose number is 5 more than
/// its index.
pub open spec fn addresses_temp(command: VmCommandModel) -> bool {
    match command {
        VmCommandModel::Push { segment, .. } => segment == "temp"@,
        VmCommandModel::Pop { segment, .. } => segment == "temp"@,
        _ => false,
    }
}

/// The index of a memory command, 0 for any other.
pub open spec fn index_of(command: VmCommandModel) -> u16 {
    match command {
        VmCommandModel::Push { index, .. } => index,
        VmCommandModel::Pop { index, .. } => index,
        _ => 0,
    }
}

/// Translates VM commands into assembly, one at a time.
pub struct AsmTranslator {
    pub condition_counter: u16,
}

impl AsmTranslator {
    pub fn new() -> (r: Self)
        ensures
            r.condition_counter == 0,
    {
        Self { condition_counter: 0 }
    }

    /// The assembly of a command. `postfix` makes the labels and static
    /// symbols of a file unique to it.
    pub fn to_asm(&mut self, command: VmCommand, postfix: &str) -> (res: Result<String, String>)
        requires
            is_comparison(command@) ==> old(self).condition_counter < u16::MAX,
            addresses_temp(command@) ==> index_of(command@) <= u16::MAX - 5,
        ensures
            final(self).condition_counter == if is_comparison(command@) {
                (old(self).condition_counter + 1) as u16
            } else {
                old(self).condition_counter
            },
            match asm_text(command@, postfix@, old(self).condition_counter) {
                Ok(text) => res matches Ok(assembly) && assembly@ == text,
                Err(e) => res matches Err(message) && message@ == e.message(),
            },
    {
        proof {
            reveal_strlit("{operation}");
        }
        match command {
            VmCommand::Add => {
                let replacements = [("{operation}", "D+M")];
                assert(texts_of(replacements@) =~= seq![("{operation}"@, "D+M"@)]);
                Ok(self.custom_str_replace(LOGICAL_OR_MATH_TEMPLATE, replacements.as_slice()))
            },
            VmCommand::Sub => {
                let replacements = [("{operation}", "M-D")];
                assert(texts_of(replacements@) =~= seq![("{operation}"@, "M-D"@)]);
                Ok(self.custom_str_replace(LOGICAL_OR_MATH_TEMPLATE, replacements.as_slice()))
            },
            VmCommand::Neg => Ok(String::from_str(NEG)),
            VmCommand::Gt => Ok(self.assemble_comparison("JGT", postfix)),
            VmCommand::Lt => Ok(self.assemble_comparison("JLT", postfix)),
            VmCommand::Eq => Ok(self.assemble_comparison("JEQ", postfix)),
            VmCommand::And => {
                let replacements = [("{operation}", "D&M")];
                assert(texts_of(replacements@) =~= seq![("{operation}"@, "D&M"@)]);
                Ok(self.custom_str_replace(LOGICAL_OR_MATH_TEMPLATE, replacements.as_slice()))
            },
            VmCommand::Or => {
                let replacements = [("{operation}", "D|M")];
                assert(texts_of(replacements@) =~= seq![("{operation}"@, "D|M"@)]);
                Ok(self.custom_str_replace(LOGICAL_OR_MATH_TEMPLATE, replacements.as_slice()))
            },
            VmCommand::Not => Ok(String::from_str(NOT)),
            VmCommand::Push { segment, index } => self.assemble_push(segment, index, postfix),
            VmCommand::Pop { segment, index } => self.assemble_pop(segment, index, postfix),
        }
    }

    /// The assembly of a comparison, with the next pair of labels.
    fn assemble_comparison(&mut self, condition: &str, postfix: &str) -> (r: String)
        requires
            old(self).condition_counter < u16::MAX,
        ensures
            final(self).condition_counter == old(self).condition_counter + 1,
            r@ == comparison_text(condition@, postfix@, old(self).condition_counter),
    {
        proof {
            reveal_strlit("{postfix}");
            reveal_strlit("{jump_condition}");
        }
        let mut unique_postfix = String::from_str(postfix);
        unique_postfix.append("_");
        push_decimal(&mut unique_postfix, self.condition_counter);
        self.condition_counter += 1;
        let replacements = [("{postfix}", unique_postfix.as_str()), ("{jump_condition}", condition)];
        assert(texts_of(replacements@) =~= seq![
            ("{postfix}"@, unique_postfix@),
            ("{jump_condition}"@, condition@),
        ]);
        self.custom_str_replace(GT_LT_TEMPLATE, replacements.as_slice())
    }

    /// The assembly that pushes the cell at `address`, or the number itself
    /// where `target` loads from A.
    fn push_direct(&self, address: &str, target: &str) -> (r: String)
        ensures
            r@ == push_direct_text(address@, target@),
    {
        proof {
            reveal_strlit("{address}");
            reveal_strlit("{target}");
        }
        let replacements = [("{address}", address), ("{target}", target)];
        assert(texts_of(replacements@) =~= seq![("{address}"@, address@), ("{target}"@, target@)]);
        self.custom_str_replace(PUSH_DIRECT_TEMPLATE, replacements.as_slice())
    }

    /// The assembly that pops into the cell at `address`.
    fn pop_direct(&self, address: &str) -> (r: String)
        ensures
            r@ == pop_direct_text(address@),
    {
        proof {
            reveal_strlit("{address}");
        }
        let replacements = [("{address}", address)];
        assert(texts_of(replacements@) =~= seq![("{address}"@, address@)]);
        self.custom_str_replace(POP_DIRECT_TEMPLATE, replacements.as_slice())
    }

    fn assemble_push(&self, segment: &str, index: u16, postfix: &str) -> (res: Result<
        String,
        String,
    >)
        requires
            segment@ == "temp"@ ==> index <= u16::MAX - 5,
        ensures
            match push_text(segment@, index, postfix@) {
                Ok(text) => res matches Ok(assembly) && assembly@ == text,
                Err(e) => res matches Err(message) && message@ == e.message(),
            },
    {
        if str_eq(segment, "constant") {
            let mut address = String::new();
            push_decimal(&mut address, index);
            assert(address@ =~= decimal(index as nat));
            Ok(self.push_direct(address.as_str(), "D=A"))
        } else if str_eq(segment, "static") {
            let mut address = String::from_str(postfix);
            address.append(".");
            push_decimal(&mut address, index);
            Ok(self.push_direct(address.as_str(), "D=M"))
        } else if str_eq(segment, "pointer") && index == 0 {
            Ok(self.push_direct("THIS", "D=M"))
        } else if str_eq(segment, "pointer") && index == 1 {
            Ok(self.push_direct("THAT", "D=M"))
        } else if str_eq(segment, "temp") {
            let mut address = String::new();
            push_decimal(&mut address, 5 + index);
            assert(address@ =~= decimal((5 + index) as nat));
            Ok(self.push_direct(address.as_str(), "D=M"))
        } else {
            proof {
                reveal_strlit("{segment}");
                reveal_strlit("{index}");
            }
            let reference = self.resolve_reference(segment)?;
            let mut number = String::new();
            push_decimal(&mut number, index);
            assert(number@ =~= decimal(index as nat));
            let replacements = [("{segment}", reference.as_str()), ("{index}", number.as_str())];
            assert(texts_of(replacements@) =~= seq![
                ("{segment}"@, reference@),
                ("{index}"@, number@),
            ]);
            Ok(self.custom_str_replace(PUSH_REF_TEMPLATE, replacements.as_slice()))
        }
    }

    fn assemble_pop(&self, segment: &str, index: u16, postfix: &str) -> (res: Result<
        String,
        String,
    >)
        requires
            segment@ == "temp"@ ==> index <= u16::MAX - 5,
        ensures
            match pop_text(segment@, index, postfix@) {
                Ok(text) => res matches Ok(assembly) && assembly@ == text,
                Err(e) => res matches Err(message) && message@ == e.message(),
            },
    {
        if str_eq(segment, "static") {
            let mut address = String::from_str(postfix);
            address.append(".");
            push_decimal(&mut address, index);
            Ok(self.pop_direct(address.as_str()))
        } else if str_eq(segment, "pointer") && index == 0 {
            Ok(self.pop_direct("THIS"))
        } else if str_eq(segment, "pointer") && index == 1 {
            Ok(self.pop_direct("THAT"))
        } else if str_eq(segment, "temp") {
            let mut address = String::from_str("R");
            push_decimal(&mut address, 5 + index);
            Ok(self.pop_direct(address.as_str()))
        } else {
            proof {
                reveal_strlit("{segment}");
                reveal_strlit("{index}");
            }
            let reference = self.resolve_reference(segment)?;
            let mut number = String::new();
            push_decimal(&mut number, index);
            assert(number@ =~= decimal(index as nat));
            let replacements = [("{segment}", reference.as_str()), ("{index}", number.as_str())];
            assert(texts_of(replacements@) =~= seq![
                ("{segment}"@, reference@),
                ("{index}"@, number@),
            ]);
            Ok(self.custom_str_replace(POP_REF_TEMPLATE, replacements.as_slice()))
        }
    }

    fn resolve_reference(&self, segment: &str) -> (res: Result<String, String>)
        ensures
            match segment_base(segment@) {
                Some(base) => res matches Ok(symbol) && symbol@ == base,
                None => res matches Err(message) && message@ == LowerError::InvalidSegment.message(),
            },
    {
        if str_eq(segment, "local") {
            Ok(String::from_str("LCL"))
        } else if str_eq(segment, "argument") {
            Ok(String::from_str("ARG"))
        } else if str_eq(segment, "this") {
            Ok(String::from_str("THIS"))
        } else if str_eq(segment, "that") {
            Ok(String::from_str("THAT"))
        } else {
            Err(String::from_str("Invalid segment"))
        }
    }

    /// The template with its placeholders replaced.
    fn custom_str_replace(&self, template: &str, replacements: &[(&str, &str)]) -> (r: String)
        requires
            forall|k: int| 0 <= k < replacements@.len() ==> (#[trigger] replacements@[k]).0@.len() > 0,
        ensures
            r@ == filled_in(template@, 0, texts_of(replacements@)),
    {
        let mut result = String::new();
        let n: usize = template.unicode_len();
        let count: usize = replacements.len();
        let mut idx: usize = 0;
        let ghost reps = texts_of(replacements@);
        assert(result@ + filled_in(template@, 0, reps) =~= filled_in(template@, 0, reps));
        while idx < n
            invariant
                idx <= n == template@.len(),
                count == replacements@.len(),
                reps == texts_of(replacements@),
                forall|k: int|
                    0 <= k < replacements@.len() ==> (#[trigger] replacements@[k]).0@.len() > 0,
                result@ + filled_in(template@, idx as int, reps) == filled_in(template@, 0, reps),
            decreases n - idx,
        {
            let mut found = false;
            let mut k: usize = 0;
            let ghost before = result@;
            let ghost start = idx;
            while k < count && !found
                invariant
                    k <= count == replacements@.len(),
                    idx <= n == template@.len(),
                    reps == texts_of(replacements@),
                    forall|j: int|
                        0 <= j < replacements@.len() ==> (#[trigger] replacements@[j]).0@.len() > 0,
                    !found ==> idx == start && result@ == before && start < n && placeholder_at(
                        template@,
                        start as int,
                        reps,
                        0,
                    ) == placeholder_at(template@, start as int, reps, k as int),
                    found ==> start < idx && result@ + filled_in(template@, idx as int, reps)
                        == before + filled_in(template@, start as int, reps),
                decreases count - k + if found { 0int } else { 1int },
            {
                let (find, replace) = replacements[k];
                let width: usize = find.unicode_len();
                assert(reps[k as int] == (find@, replace@));
                if width <= n - idx && str_eq(template.substring_char(idx, idx + width), find) {
                    result.append(replace);
                    idx += width;
                    found = true;
                    assert(result@ + filled_in(template@, idx as int, reps) =~= before + filled_in(
                        template@,
                        start as int,
                        reps,
                    ));
                } else {
                    k += 1;
                }
            }
            if !found {
                result.append(template.substring_char(idx, idx + 1));
                assert(template@.subrange(idx as int, idx + 1) =~= seq![template@[idx as int]]);
                idx += 1;
                assert(result@ + filled_in(template@, idx as int, reps) =~= before + filled_in(
                    template@,
                    start as int,
                    reps,
                ));
            }
        }
        assert(result@ =~= filled_in(template@, 0, reps));
        result
    }
}

} // verus!
