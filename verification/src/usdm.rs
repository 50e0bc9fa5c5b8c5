//! The stack machine that follows values through the instructions of a
//! stack-based code: what each instruction takes from the stack and what
//! it leaves there.

use vstd::prelude::*;

verus! {

/// What an instruction does besides taking and leaving values.
pub enum SpecialStackOp<T: UsdmSegment> {
    /// Nothing.
    Nothing,
    /// It makes a variable of the given type.
    CreateVar(T::Type),
}

/// What an instruction does to the stack.
pub struct StackOperation<T: UsdmSegment> {
    pub in_types: Vec<T::Type>,
    pub out_types: Vec<T::Type>,
    pub special_op: SpecialStackOp<T>,
}

impl<T: UsdmSegment> StackOperation<T> {
    /// The operation that takes nothing and leaves nothing.
    pub fn new() -> (r: Self)
        ensures
            r.in_types@.len() == 0,
            r.out_types@.len() == 0,
            r.special_op is Nothing,
    {
        Self { in_types: Vec::new(), out_types: Vec::new(), special_op: SpecialStackOp::Nothing }
    }
}

/// An instruction of the code that the machine follows.
pub trait UsdmSegment: Clone {
    /// The types of the values on the stack.
    type Type;

    /// What the instruction does to the stack.
    fn get_stack_operation(&self) -> StackOperation<Self>;
}

/// A piece of code: instructions in a row.
pub trait UsdmFrontend: Clone {
    type Type: Clone;

    type Segment: UsdmSegment<Type = Self::Type>;

    /// The number of instructions.
    fn len(&self) -> usize;

    /// The instruction at `i`, if there is one.
    fn segment(&self, i: usize) -> Option<&Self::Segment>;
}

/// A value on the stack: a variable, or one of the values that an
/// instruction left, with the values that it took.
pub enum UsdmExpression<T: UsdmFrontend> {
    UsdmVariable { _type: T::Type },
    UsdmExpr { operation: T::Segment, out_num: usize, arguments: Vec<UsdmExpression<T>> },
}

impl<T: UsdmFrontend> Clone for UsdmExpression<T> {
    fn clone(&self) -> (r: Self)
        ensures
            self is UsdmVariable <==> r is UsdmVariable,
        decreases self,
    {
        match self {
            UsdmExpression::UsdmVariable { _type } => UsdmExpression::UsdmVariable {
                _type: _type.clone(),
            },
            UsdmExpression::UsdmExpr { operation, out_num, arguments } => {
                let mut copies: Vec<UsdmExpression<T>> = Vec::new();
                let mut i: usize = 0;
                while i < arguments.len()
                    invariant
                        i <= arguments@.len(),
                        copies@.len() == i,
                        decreases_to!(*self => *arguments),
                    decreases arguments@.len() - i,
                {
                    proof {
                        vstd::std_specs::vec::axiom_vec_index_decreases(*arguments, i as int);
                    }
                    copies.push(arguments[i].clone());
                    i = i + 1;
                }
                UsdmExpression::UsdmExpr {
                    operation: operation.clone(),
                    out_num: *out_num,
                    arguments: copies,
                }
            },
        }
    }
}

impl<T: UsdmFrontend> UsdmExpression<T> {
    /// A variable of the given type.
    pub fn empty(_type: T::Type) -> (r: Self)
        ensures
            r == (UsdmExpression::<T>::UsdmVariable { _type }),
    {
        Self::UsdmVariable { _type }
    }
}

/// Whether `v` is the value number `i` that an instruction left, with
/// the `taken` values that it took.
pub open spec fn spec_left<T: UsdmFrontend>(v: UsdmExpression<T>, i: int, taken: nat) -> bool {
    match v {
        UsdmExpression::UsdmExpr { operation, out_num, arguments } => out_num == i
            && arguments@.len() == taken,
        UsdmExpression::UsdmVariable { _type } => false,
    }
}

/// Whether `after` is the stack `before` with the operation `op` applied
/// to it: the values that the operation takes are gone from the top, and
/// in their place stands a variable of the type that the operation names,
/// where it makes one, else one value for each that it leaves, each with
/// as many values as were taken.
pub open spec fn spec_applied<T: UsdmFrontend>(
    before: Seq<UsdmExpression<T>>,
    op: StackOperation<T::Segment>,
    after: Seq<UsdmExpression<T>>,
) -> bool {
    let kept = before.len() - op.in_types@.len();
    &&& op.in_types@.len() <= before.len()
    &&& after.subrange(0, kept) == before.subrange(0, kept)
    &&& match op.special_op {
        SpecialStackOp::CreateVar(t) => {
            &&& after.len() == kept + 1
            &&& after[kept] == (UsdmExpression::<T>::UsdmVariable { _type: t })
        },
        SpecialStackOp::Nothing => {
            &&& after.len() == kept + op.out_types@.len()
            &&& forall|i: int|
                0 <= i < op.out_types@.len() ==> spec_left(
                    #[trigger] after[kept + i],
                    i,
                    op.in_types@.len(),
                )
        },
    }
}

/// Whether the code hands out `seg` as its instruction number `k`, and
/// `seg` gives `op` as what it does to the stack.
pub open spec fn spec_instruction<T: UsdmFrontend>(
    code: T,
    k: usize,
    seg: T::Segment,
    op: StackOperation<T::Segment>,
) -> bool {
    &&& call_ensures(T::segment, (&code, k), Some(&seg))
    &&& call_ensures(<T::Segment as UsdmSegment>::get_stack_operation, (&seg,), op)
}

/// Whether the instruction number `k` of the code turns the stack `before`
/// into `after`.
pub open spec fn spec_step<T: UsdmFrontend>(
    code: T,
    k: usize,
    before: Seq<UsdmExpression<T>>,
    after: Seq<UsdmExpression<T>>,
) -> bool {
    exists|seg: T::Segment, op: StackOperation<T::Segment>| #[trigger]
        spec_instruction(code, k, seg, op) && spec_applied(before, op, after)
}

/// Whether the machine cannot go on at the instruction number `k` with
/// the stack `stack`: the code hands out no such instruction, or the
/// instruction takes more values than the stack holds.
pub open spec fn spec_stuck<T: UsdmFrontend>(
    code: T,
    k: usize,
    stack: Seq<UsdmExpression<T>>,
) -> bool {
    ||| call_ensures(T::segment, (&code, k), None)
    ||| exists|seg: T::Segment, op: StackOperation<T::Segment>| #[trigger]
        spec_instruction(code, k, seg, op) && op.in_types@.len() > stack.len()
}

/// Whether `stacks` are the stacks that the machine finds as it follows
/// the code from its first instruction on: each comes from the one before
/// it by the instruction of that number.
pub open spec fn spec_run<T: UsdmFrontend>(code: T, stacks: Seq<Seq<UsdmExpression<T>>>) -> bool {
    forall|k: int|
        0 <= k < stacks.len() - 1 ==> spec_step(
            code,
            k as usize,
            #[trigger] stacks[k],
            stacks[k + 1],
        )
}

/// Whether `stacks` are the stacks of a run of the machine over a code of
/// `count` instructions that starts with the stack `before`, follows
/// `followed` instructions and ends with the stack `after`, and that stops
/// before the end of the code only where the machine cannot go on.
pub open spec fn spec_trace<T: UsdmFrontend>(
    code: T,
    count: usize,
    stacks: Seq<Seq<UsdmExpression<T>>>,
    before: Seq<UsdmExpression<T>>,
    followed: usize,
    after: Seq<UsdmExpression<T>>,
) -> bool {
    &&& call_ensures(T::len, (&code,), count)
    &&& followed <= count
    &&& stacks.len() == followed + 1
    &&& stacks[0] == before
    &&& stacks[followed as int] == after
    &&& spec_run(code, stacks)
    &&& followed < count ==> spec_stuck(code, followed, after)
}

/// Whether the machine, with the stack `before`, follows `followed`
/// instructions of the code and is left with the stack `after`: it goes
/// through them one by one, and stops before the end of the code only
/// where it cannot go on.
pub open spec fn spec_analyzed<T: UsdmFrontend>(
    code: T,
    before: Seq<UsdmExpression<T>>,
    followed: usize,
    after: Seq<UsdmExpression<T>>,
) -> bool {
    exists|count: usize, stacks: Seq<Seq<UsdmExpression<T>>>| #[trigger]
        spec_trace(code, count, stacks, before, followed, after)
}

/// The stack as the machine has found it.
pub struct UsdmState<T: UsdmFrontend> {
    pub stack: Vec<UsdmExpression<T>>,
    pub stack_capacity: usize,
}

/// How the machine is to work; nothing can be chosen yet.
pub struct UsdmOptions {}

/// The machine: the code it follows, and the stack it has found.
pub struct Usdm<T: UsdmFrontend> {
    pub expr_string: T,
    pub timeline: Vec<UsdmState<T>>,
    pub options: UsdmOptions,
    pub final_state: UsdmState<T>,
}

/// Copies of values, in order.
fn copy_values<T: UsdmFrontend>(values: &Vec<UsdmExpression<T>>) -> (r: Vec<UsdmExpression<T>>)
    ensures
        r@.len() == values@.len(),
{
    let mut copies: Vec<UsdmExpression<T>> = Vec::new();
    let mut i: usize = 0;
    while i < values.len()
        invariant
            i <= values@.len(),
            copies@.len() == i,
        decreases values@.len() - i,
    {
        copies.push(values[i].clone());
        i = i + 1;
    }
    copies
}

impl<T: UsdmFrontend> Usdm<T> {
    /// A machine for the given code, with an empty stack.
    pub fn new(frontend: T) -> (r: Self)
        ensures
            r.expr_string == frontend,
            r.timeline@.len() == 0,
            r.final_state.stack@.len() == 0,
            r.final_state.stack_capacity == 0,
    {
        Self {
            expr_string: frontend,
            timeline: Vec::new(),
            options: UsdmOptions {  },
            final_state: UsdmState { stack: Vec::new(), stack_capacity: 0 },
        }
    }

    /// Applies one instruction to a stack: takes as many values as the
    /// instruction takes, then puts there a variable, where the
    /// instruction makes one, else one value for each that the
    /// instruction leaves, each with the values that were taken. Does
    /// nothing where the instruction takes more than the stack holds, and
    /// tells so.
    pub fn apply_operation(
        stack: &mut Vec<UsdmExpression<T>>,
        seg: &T::Segment,
        stack_op: StackOperation<T::Segment>,
    ) -> (done: bool)
        ensures
            done == (stack_op.in_types@.len() <= old(stack)@.len()),
            !done ==> final(stack)@ == old(stack)@,
            done ==> spec_applied(old(stack)@, stack_op, final(stack)@),
    {
        if stack_op.in_types.len() > stack.len() {
            return false;
        }
        let ghost kept = stack@.len() - stack_op.in_types@.len();
        let mut vars: Vec<UsdmExpression<T>> = Vec::new();
        let mut taken: usize = 0;
        while taken < stack_op.in_types.len()
            invariant
                taken <= stack_op.in_types@.len() <= old(stack)@.len(),
                vars@.len() == taken,
                stack@.len() == old(stack)@.len() - taken,
                stack@ == old(stack)@.subrange(0, stack@.len() as int),
                kept == old(stack)@.len() - stack_op.in_types@.len(),
            decreases stack_op.in_types@.len() - taken,
        {
            let value = stack.pop().unwrap();
            vars.push(value);
            assert(stack@ =~= old(stack)@.subrange(0, stack@.len() as int));
            taken = taken + 1;
        }
        let ghost base = stack@;
        match stack_op.special_op {
            SpecialStackOp::Nothing => {
                let mut i: usize = 0;
                while i < stack_op.out_types.len()
                    invariant
                        i <= stack_op.out_types@.len(),
                        vars@.len() == stack_op.in_types@.len(),
                        base.len() == kept,
                        stack@.len() == kept + i,
                        stack@.subrange(0, kept) == base,
                        forall|j: int|
                            0 <= j < i ==> spec_left(
                                #[trigger] stack@[kept + j],
                                j,
                                stack_op.in_types@.len(),
                            ),
                    decreases stack_op.out_types@.len() - i,
                {
                    let value = UsdmExpression::UsdmExpr {
                        operation: seg.clone(),
                        out_num: i,
                        arguments: copy_values(&vars),
                    };
                    let ghost before = stack@;
                    stack.push(value);
                    proof {
                        assert(stack@.subrange(0, kept) =~= before.subrange(0, kept));
                        assert forall|j: int| 0 <= j < i + 1 implies spec_left(
                            #[trigger] stack@[kept + j],
                            j,
                            stack_op.in_types@.len(),
                        ) by {
                            if j < i {
                                assert(stack@[kept + j] == before[kept + j]);
                            }
                        }
                    }
                    i = i + 1;
                }
                assert(base =~= old(stack)@.subrange(0, kept));
            },
            SpecialStackOp::CreateVar(_type) => {
                stack.push(UsdmExpression::empty(_type));
                assert(stack@.subrange(0, kept) =~= old(stack)@.subrange(0, kept));
            },
        }
        true
    }

    /// Follows the code, instruction by instruction, and applies each to
    /// the stack that the machine has found. Stops at an instruction that
    /// takes more than the stack holds, and tells how many instructions it
    /// has followed.
    pub fn analyze_data(&mut self) -> (followed: usize)
        ensures
            final(self).expr_string == old(self).expr_string,
            final(self).timeline == old(self).timeline,
            final(self).final_state.stack_capacity == old(self).final_state.stack_capacity,
            spec_analyzed(
                old(self).expr_string,
                old(self).final_state.stack@,
                followed,
                final(self).final_state.stack@,
            ),
    {
        let count = self.expr_string.len();
        let ghost code = self.expr_string;
        let ghost mut stacks: Seq<Seq<UsdmExpression<T>>> = seq![self.final_state.stack@];
        let mut k: usize = 0;
        while k < count
            invariant
                k <= count,
                self.expr_string == old(self).expr_string,
                self.timeline == old(self).timeline,
                self.final_state.stack_capacity == old(self).final_state.stack_capacity,
                code == self.expr_string,
                call_ensures(T::len, (&code,), count),
                stacks.len() == k + 1,
                stacks[0] == old(self).final_state.stack@,
                stacks[k as int] == self.final_state.stack@,
                spec_run(code, stacks),
            decreases count - k,
        {
            match self.expr_string.segment(k) {
                Some(seg) => {
                    let stack_op = seg.get_stack_operation();
                    let ghost op = stack_op;
                    assert(spec_instruction(code, k, *seg, op));
                    if !Self::apply_operation(&mut self.final_state.stack, seg, stack_op) {
                        assert(spec_stuck(code, k, self.final_state.stack@));
                        assert(spec_trace(
                            code,
                            count,
                            stacks,
                            old(self).final_state.stack@,
                            k,
                            self.final_state.stack@,
                        ));
                        return k;
                    }
                    proof {
                        let before = stacks;
                        stacks = stacks.push(self.final_state.stack@);
                        assert(spec_step(code, k, before[k as int], self.final_state.stack@));
                        assert forall|j: int| 0 <= j < stacks.len() - 1 implies spec_step(
                            code,
                            j as usize,
                            #[trigger] stacks[j],
                            stacks[j + 1],
                        ) by {
                            if j < k {
                                assert(stacks[j] == before[j]);
                                assert(stacks[j + 1] == before[j + 1]);
                            }
                        }
                    }
                },
                None => {
                    assert(spec_stuck(code, k, self.final_state.stack@));
                    assert(spec_trace(
                        code,
                        count,
                        stacks,
                        old(self).final_state.stack@,
                        k,
                        self.final_state.stack@,
                    ));
                    return k;
                },
            }
            k = k + 1;
        }
        assert(spec_trace(
            code,
            count,
            stacks,
            old(self).final_state.stack@,
            count,
            self.final_state.stack@,
        ));
        count
    }
}

} // verus!
