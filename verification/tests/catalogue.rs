use wasm_decomp::instr_table::{get_instr, get_instr_from_op, instr_info, same_text};
use wasm_decomp::wasm_model::{get_edge_case, Prim, SpecialInstr};

#[test]
fn every_opcode_has_an_entry() {
    for op in 0..=255u8 {
        let info = instr_info(op);
        assert_eq!(info.instr, op);
        if info.name.is_empty() {
            assert!(info.in_types.is_empty());
            assert!(info.out_types.is_empty());
            assert!(info.constants.is_empty());
            assert!(!info.takes_align);
        }
    }
}

#[test]
fn memory_accesses_take_an_alignment() {
    for op in 0..=255u8 {
        assert_eq!(instr_info(op).takes_align, (0x28..=0x3E).contains(&op), "{:#x}", op);
    }
}

#[test]
fn some_entries() {
    let add = instr_info(0x6A);
    assert_eq!(add.name, "i32.add");
    assert_eq!(add.in_types, &[Prim::I32, Prim::I32]);
    assert_eq!(add.out_types, &[Prim::I32]);
    assert!(add.constants.is_empty());

    let constant = instr_info(0x44);
    assert_eq!(constant.name, "f64.const");
    assert_eq!(constant.constants, &[Prim::F64]);

    let load = instr_info(0x29);
    assert_eq!(load.name, "i64.load");
    assert_eq!(load.in_types, &[Prim::I32]);
    assert_eq!(load.out_types, &[Prim::I64]);
    assert_eq!(load.constants, &[Prim::I32]);

    assert_eq!(instr_info(0x3F).constants, &[Prim::Void]);
    assert_eq!(instr_info(0x40).constants, &[Prim::Void]);
    assert_eq!(instr_info(0xD2).name, "ref.func");
    assert_eq!(instr_info(0xD2).constants, &[Prim::Func]);
    assert_eq!(instr_info(0x20).constants, &[Prim::Local]);
    assert_eq!(instr_info(0x23).constants, &[Prim::Global]);
    assert_eq!(instr_info(0x06).name, "");
    assert_eq!(instr_info(0xFF).name, "");
}

#[test]
fn lookup_by_name() {
    assert_eq!(get_instr("i32.add").unwrap().instr, 0x6A);
    assert_eq!(get_instr("unreachable").unwrap().instr, 0x00);
    assert_eq!(get_instr("end").unwrap().instr, 0x0B);
    assert_eq!(get_instr("ref.func").unwrap().instr, 0xD2);
    assert!(get_instr("i32.nope").is_none());
    // the first opcode without a mnemonic carries the empty name
    assert_eq!(get_instr("").unwrap().instr, 0x06);
}

#[test]
fn lookup_by_opcode() {
    assert_eq!(get_instr_from_op(0x41).unwrap().name, "i32.const");
    assert_eq!(get_instr_from_op(255).unwrap().instr, 255);
    assert!(get_instr_from_op(256).is_none());
    assert!(get_instr_from_op(u64::MAX).is_none());
}

#[test]
fn texts_are_compared_by_their_characters() {
    assert!(same_text("", ""));
    assert!(same_text("loop", "loop"));
    assert!(!same_text("loop", "loob"));
    assert!(!same_text("loop", "loo"));
    assert!(same_text("gr\u{fc}n", "gr\u{fc}n"));
    assert!(!same_text("gr\u{fc}n", "grun"));
}

#[test]
fn roles_of_opcodes() {
    for op in 0..=255u8 {
        let want = match op {
            0x0E => SpecialInstr::BrTable,
            0x02 | 0x03 | 0x04 => SpecialInstr::BeginBlock,
            0x0B => SpecialInstr::EndBlock,
            0x11 => SpecialInstr::CallIndirect,
            _ => SpecialInstr::Normal,
        };
        assert_eq!(get_edge_case(instr_info(op)), want);
    }
}

#[test]
fn descriptors_in_one_line() {
    assert_eq!(instr_info(0x02).describe(), "0x2: block[Void]()");
    assert_eq!(instr_info(0x6A).describe(), "0x6a: i32.add(I32, I32) -> I32");
    assert_eq!(instr_info(0x11).describe(), "0x11: call_indirect[I32, I32](I32)");
    assert_eq!(instr_info(0x1B).describe(), "0x1b: select(Generic, Generic, I32) -> Generic");
    assert_eq!(instr_info(0x00).describe(), "0x0: unreachable()");
    assert_eq!(instr_info(0xFF).describe(), "0xff: ()");
    assert_eq!(instr_info(0xD2).describe(), "0xd2: ref.func[Func]() -> Func");
}
