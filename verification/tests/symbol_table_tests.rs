use mossc::ast::VariableType;
use mossc::symbol_table::{SymbolTable, TypeInfo, VariableInfo};

fn info(id: u64, t: &str) -> VariableInfo {
    VariableInfo { id, var_type: VariableType { ident: t.to_string(), pointer: false, array: false, array_size: 0 } }
}

#[test]
fn defined_variable_is_found() {
    let mut table = SymbolTable::new();
    table.define_variable("x", info(3, "u8"));
    let v = table.get_variable("x").unwrap();
    assert_eq!(v.id, 3);
    assert_eq!(v.var_type.ident, "u8");
    assert!(table.get_variable("y").is_none());
    assert!(table.get_type("x").is_none());
}

#[test]
fn redefinition_replaces() {
    let mut table = SymbolTable::new();
    table.define_variable("x", info(3, "u8"));
    table.define_variable("x", info(4, "u16"));
    assert_eq!(table.get_variable("x").unwrap().id, 4);
    table.define_type("x", TypeInfo { size: 2 });
    assert!(table.get_variable("x").is_none());
    assert_eq!(table.get_type("x").unwrap().size, 2);
    assert_eq!(table.display(), "SymbolTable:\n[type: x | size: 2]\n");
}

#[test]
fn display_lists_entries_in_definition_order() {
    let mut table = SymbolTable::new();
    table.define_type("u8", TypeInfo { size: 1 });
    table.define_variable("x", info(1, "u8"));
    assert_eq!(
        table.display(),
        "SymbolTable:\n[type: u8 | size: 1]\nname: [x | id: 1 | VariableType [ident: u8, pointer: false, array: false, array_size: 0]]\n"
    );
    assert_eq!(SymbolTable::new().display(), "SymbolTable:\n");
}

#[test]
fn defining_one_name_keeps_the_others() {
    let mut table = SymbolTable::new();
    table.define_variable("x", info(1, "u8"));
    table.define_type("t", TypeInfo { size: 4 });
    table.define_variable("y", info(2, "u16"));
    assert_eq!(table.get_variable("x").unwrap().id, 1);
    assert_eq!(table.get_type("t").unwrap().size, 4);
    assert_eq!(table.get_variable("y").unwrap().id, 2);
    assert!(table.get_type("y").is_none());
}
