//! The intermediate representation that the optimizer transforms: a
//! function is a flat list of three-address instructions over named values,
//! with labels marking basic blocks.
use vstd::prelude::*;

verus! {

/// An instruction. Operands are value names; a name of the form
/// `const.i32.N` or `const.i64.N` stands for the integer `N`.
#[derive(Debug, PartialEq, Eq)]
pub enum Instruction {
    Alloca { dest: String, ty: String },
    Store { dest: String, src: String },
    Load { dest: String, src: String },
    Add { dest: String, left: String, right: String },
    Sub { dest: String, left: String, right: String },
    Mul { dest: String, left: String, right: String },
    Div { dest: String, left: String, right: String },
    Mod { dest: String, left: String, right: String },
    Eq { dest: String, left: String, right: String },
    Ne { dest: String, left: String, right: String },
    Lt { dest: String, left: String, right: String },
    Le { dest: String, left: String, right: String },
    Gt { dest: String, left: String, right: String },
    Ge { dest: String, left: String, right: String },
    Call { dest: Option<String>, func: String, args: Vec<String> },
    Return(Option<String>),
    ReturnInPlace(String),
    Br(String),
    CondBr { cond: String, true_bb: String, false_bb: String },
    Label(String),
    Nop,
}

/// The binary operations.
#[derive(Debug, Clone, Copy, PartialEq, Eq, Structural)]
pub enum BinKind {
    Add,
    Sub,
    Mul,
    Div,
    Mod,
    Eq,
    Ne,
    Lt,
    Le,
    Gt,
    Ge,
}

/// An instruction with its names as text.
pub enum InstV {
    Alloca { dest: Seq<char>, ty: Seq<char> },
    Store { dest: Seq<char>, src: Seq<char> },
    Load { dest: Seq<char>, src: Seq<char> },
    Bin { op: BinKind, dest: Seq<char>, left: Seq<char>, right: Seq<char> },
    Call { dest: Option<Seq<char>>, func: Seq<char>, args: Seq<Seq<char>> },
    Return(Option<Seq<char>>),
    ReturnInPlace(Seq<char>),
    Br(Seq<char>),
    CondBr { cond: Seq<char>, true_bb: Seq<char>, false_bb: Seq<char> },
    Label(Seq<char>),
    Nop,
}

/// The texts of a list of names.
pub open spec fn texts(v: Seq<String>) -> Seq<Seq<char>> {
    v.map_values(|s: String| s@)
}

/// The text of an optional name.
pub open spec fn opt_text(o: Option<String>) -> Option<Seq<char>> {
    match o {
        Some(s) => Some(s@),
        None => None,
    }
}

impl View for Instruction {
    type V = InstV;

    open spec fn view(&self) -> InstV {
        match self {
            Instruction::Alloca { dest, ty } => InstV::Alloca { dest: dest@, ty: ty@ },
            Instruction::Store { dest, src } => InstV::Store { dest: dest@, src: src@ },
            Instruction::Load { dest, src } => InstV::Load { dest: dest@, src: src@ },
            Instruction::Add { dest, left, right } => InstV::Bin { op: BinKind::Add, dest: dest@, left: left@, right: right@ },
            Instruction::Sub { dest, left, right } => InstV::Bin { op: BinKind::Sub, dest: dest@, left: left@, right: right@ },
            Instruction::Mul { dest, left, right } => InstV::Bin { op: BinKind::Mul, dest: dest@, left: left@, right: right@ },
            Instruction::Div { dest, left, right } => InstV::Bin { op: BinKind::Div, dest: dest@, left: left@, right: right@ },
            Instruction::Mod { dest, left, right } => InstV::Bin { op: BinKind::Mod, dest: dest@, left: left@, right: right@ },
            Instruction::Eq { dest, left, right } => InstV::Bin { op: BinKind::Eq, dest: dest@, left: left@, right: right@ },
            Instruction::Ne { dest, left, right } => InstV::Bin { op: BinKind::Ne, dest: dest@, left: left@, right: right@ },
            Instruction::Lt { dest, left, right } => InstV::Bin { op: BinKind::Lt, dest: dest@, left: left@, right: right@ },
            Instruction::Le { dest, left, right } => InstV::Bin { op: BinKind::Le, dest: dest@, left: left@, right: right@ },
            Instruction::Gt { dest, left, right } => InstV::Bin { op: BinKind::Gt, dest: dest@, left: left@, right: right@ },
            Instruction::Ge { dest, left, right } => InstV::Bin { op: BinKind::Ge, dest: dest@, left: left@, right: right@ },
            Instruction::Call { dest, func, args } => InstV::Call { dest: opt_text(*dest), func: func@, args: texts(args@) },
            Instruction::Return(v) => InstV::Return(opt_text(*v)),
            Instruction::ReturnInPlace(v) => InstV::ReturnInPlace(v@),
            Instruction::Br(l) => InstV::Br(l@),
            Instruction::CondBr { cond, true_bb, false_bb } => InstV::CondBr {
                cond: cond@,
                true_bb: true_bb@,
                false_bb: false_bb@,
            },
            Instruction::Label(l) => InstV::Label(l@),
            Instruction::Nop => InstV::Nop,
        }
    }
}

/// The views of a list of instructions.
pub open spec fn insts_view(v: Seq<Instruction>) -> Seq<InstV> {
    v.map_values(|i: Instruction| i@)
}

/// A function: its name, its parameters with their types' names, its body,
/// and whether it is a kernel.
#[derive(Debug)]
pub struct Function {
    pub name: String,
    pub params: Vec<(String, String)>,
    pub body: Vec<Instruction>,
    pub is_kernel: bool,
}

/// A module: its functions.
#[derive(Debug)]
pub struct Module {
    pub functions: Vec<Function>,
}

/// A copy of a list of names.
pub fn copy_names(v: &Vec<String>) -> (r: Vec<String>)
    ensures
        texts(r@) == texts(v@),
{
    let mut r: Vec<String> = Vec::new();
    let mut i: usize = 0;
    while i < v.len()
        invariant
            i <= v@.len(),
            r@.len() == i,
            forall|j: int| 0 <= j < i ==> #[trigger] r@[j]@ == v@[j]@,
        decreases v@.len() - i,
    {
        r.push(v[i].clone());
        i = i + 1;
    }
    assert(texts(r@) =~= texts(v@));
    r
}

/// A copy of an instruction.
pub fn copy_inst(i: &Instruction) -> (r: Instruction)
    ensures
        r@ == i@,
{
    match i {
        Instruction::Alloca { dest, ty } => Instruction::Alloca { dest: dest.clone(), ty: ty.clone() },
        Instruction::Store { dest, src } => Instruction::Store { dest: dest.clone(), src: src.clone() },
        Instruction::Load { dest, src } => Instruction::Load { dest: dest.clone(), src: src.clone() },
        Instruction::Add { dest, left, right } => Instruction::Add { dest: dest.clone(), left: left.clone(), right: right.clone() },
        Instruction::Sub { dest, left, right } => Instruction::Sub { dest: dest.clone(), left: left.clone(), right: right.clone() },
        Instruction::Mul { dest, left, right } => Instruction::Mul { dest: dest.clone(), left: left.clone(), right: right.clone() },
        Instruction::Div { dest, left, right } => Instruction::Div { dest: dest.clone(), left: left.clone(), right: right.clone() },
        Instruction::Mod { dest, left, right } => Instruction::Mod { dest: dest.clone(), left: left.clone(), right: right.clone() },
        Instruction::Eq { dest, left, right } => Instruction::Eq { dest: dest.clone(), left: left.clone(), right: right.clone() },
        Instruction::Ne { dest, left, right } => Instruction::Ne { dest: dest.clone(), left: left.clone(), right: right.clone() },
        Instruction::Lt { dest, left, right } => Instruction::Lt { dest: dest.clone(), left: left.clone(), right: right.clone() },
        Instruction::Le { dest, left, right } => Instruction::Le { dest: dest.clone(), left: left.clone(), right: right.clone() },
        Instruction::Gt { dest, left, right } => Instruction::Gt { dest: dest.clone(), left: left.clone(), right: right.clone() },
        Instruction::Ge { dest, left, right } => Instruction::Ge { dest: dest.clone(), left: left.clone(), right: right.clone() },
        Instruction::Call { dest, func, args } => {
            let d = match dest {
                Some(s) => Some(s.clone()),
                None => None,
            };
            Instruction::Call { dest: d, func: func.clone(), args: copy_names(args) }
        },
        Instruction::Return(v) => {
            let w = match v {
                Some(s) => Some(s.clone()),
                None => None,
            };
            Instruction::Return(w)
        },
        Instruction::ReturnInPlace(v) => Instruction::ReturnInPlace(v.clone()),
        Instruction::Br(l) => Instruction::Br(l.clone()),
        Instruction::CondBr { cond, true_bb, false_bb } => Instruction::CondBr {
            cond: cond.clone(),
            true_bb: true_bb.clone(),
            false_bb: false_bb.clone(),
        },
        Instruction::Label(l) => Instruction::Label(l.clone()),
        Instruction::Nop => Instruction::Nop,
    }
}

impl Clone for Instruction {
    fn clone(&self) -> (r: Instruction)
        ensures
            r@ == self@,
    {
        copy_inst(self)
    }
}

/// A copy of a list of instructions.
pub fn copy_insts(v: &[Instruction]) -> (r: Vec<Instruction>)
    ensures
        insts_view(r@) == insts_view(v@),
{
    let mut r: Vec<Instruction> = Vec::new();
    let mut i: usize = 0;
    while i < v.len()
        invariant
            i <= v@.len(),
            r@.len() == i,
            forall|j: int| 0 <= j < i ==> #[trigger] r@[j]@ == v@[j]@,
        decreases v@.len() - i,
    {
        r.push(copy_inst(&v[i]));
        i = i + 1;
    }
    assert(insts_view(r@) =~= insts_view(v@));
    r
}

/// The parameters of a function as texts.
pub open spec fn params_view(p: Seq<(String, String)>) -> Seq<(Seq<char>, Seq<char>)> {
    p.map_values(|e: (String, String)| (e.0@, e.1@))
}

impl Function {
    /// Whether `other` has the same name, parameters, body and kind.
    pub open spec fn same_as(&self, other: Function) -> bool {
        &&& self.name@ == other.name@
        &&& params_view(self.params@) == params_view(other.params@)
        &&& insts_view(self.body@) == insts_view(other.body@)
        &&& self.is_kernel == other.is_kernel
    }
}

/// A copy of a function.
pub fn copy_function(f: &Function) -> (r: Function)
    ensures
        r.same_as(*f),
{
    let mut params: Vec<(String, String)> = Vec::new();
    let mut i: usize = 0;
    while i < f.params.len()
        invariant
            i <= f.params@.len(),
            params@.len() == i,
            forall|j: int| 0 <= j < i ==> #[trigger] params@[j].0@ == f.params@[j].0@ && params@[j].1@ == f.params@[j].1@,
        decreases f.params@.len() - i,
    {
        params.push((f.params[i].0.clone(), f.params[i].1.clone()));
        i = i + 1;
    }
    assert(params_view(params@) =~= params_view(f.params@));
    Function { name: f.name.clone(), params, body: copy_insts(f.body.as_slice()), is_kernel: f.is_kernel }
}

impl Clone for Function {
    fn clone(&self) -> (r: Function)
        ensures
            r.same_as(*self),
    {
        copy_function(self)
    }
}

} // verus!
