use blenderfile::decl::{dimensions, identifier, pointer_kind};
use blenderfile::pretty::decimal_string;
use blenderfile::sdna::{PointerType, SDNA, StructureType, Type};
use blenderfile::text::string_of_bytes;

fn bytes(s: &str) -> Vec<u8> {
    s.as_bytes().to_vec()
}

#[test]
fn identifier_skips_stars_and_stops_at_brackets() {
    assert_eq!(identifier(&bytes("**mat")), "mat");
    assert_eq!(identifier(&bytes("co[3]")), "co");
    assert_eq!(identifier(&bytes("(*func)()")), "func");
    assert_eq!(identifier(&bytes("_pad1")), "_pad1");
    assert_eq!(identifier(&bytes("[]")), "");
}

#[test]
fn pointer_kinds() {
    assert_eq!(pointer_kind(&bytes("*data")), PointerType::Pointer);
    assert_eq!(pointer_kind(&bytes("**mat")), PointerType::PointerPointer);
    assert_eq!(pointer_kind(&bytes("loc[3]")), PointerType::NoPointer);
    assert_eq!(pointer_kind(&bytes("(*func)()")), PointerType::NoPointer);
    assert_eq!(pointer_kind(&bytes("*")), PointerType::NoPointer);
    assert_eq!(pointer_kind(&bytes("***x")), PointerType::NoPointer);
}

#[test]
fn dimensions_in_order() {
    assert_eq!(dimensions(&bytes("mat[4][4]")), Some(vec![4, 4]));
    assert_eq!(dimensions(&bytes("name[64]")), Some(vec![64]));
    assert_eq!(dimensions(&bytes("flag")), Some(vec![]));
    assert_eq!(dimensions(&bytes("a[2][3][5]")), Some(vec![2, 3, 5]));
    assert_eq!(dimensions(&bytes("a[]")), Some(vec![]));
    assert_eq!(dimensions(&bytes("a[X]")), None);
    assert_eq!(dimensions(&bytes("a[99999999999999999999999]")), None);
}

#[test]
fn split_path_on_dots() {
    assert_eq!(SDNA::split_path("data.mvert.co"), vec!["data", "mvert", "co"]);
    assert_eq!(SDNA::split_path("data"), vec!["data"]);
    assert_eq!(SDNA::split_path(""), vec![""]);
    assert_eq!(SDNA::split_path("a..b"), vec!["a", "", "b"]);
}

#[test]
fn simple_and_timer_types() {
    let t = Type::new(String::from("wmTimer"), 8);
    assert!(t.is_timer);
    assert!(!t.is_simple);
    let v = Type::new(String::from("void"), 0);
    assert!(v.is_simple);
    assert!(!v.is_timer);
    assert_eq!(v.duplicate().name, "void");
    for n in ["char", "uchar", "short", "ushort", "int", "long", "ulong", "float", "double", "int64_t", "uint64_t", "void"].iter() {
        assert!(SDNA::is_simple(&String::from(*n)));
    }
    assert!(!SDNA::is_simple(&String::from("Object")));
}

#[test]
fn structure_types_of_names() {
    assert!(matches!(SDNA::get_structure_type(&Type::new(String::from("short"), 2)), StructureType::Short));
    assert!(matches!(SDNA::get_structure_type(&Type::new(String::from("uint64_t"), 8)), StructureType::UInt64));
    assert!(matches!(SDNA::get_structure_type(&Type::new(String::from("void"), 0)), StructureType::Void));
    match SDNA::get_structure_type(&Type::new(String::from("ListBase"), 16)) {
        StructureType::Complex(n) => assert_eq!(n, "ListBase"),
        _ => panic!("expected a record"),
    }
}

#[test]
fn decimal_and_byte_strings() {
    assert_eq!(decimal_string(0), "0");
    assert_eq!(decimal_string(1234), "1234");
    assert_eq!(decimal_string(usize::MAX), usize::MAX.to_string());
    assert_eq!(string_of_bytes(&bytes("BLENDER"), 1, 4), "LEN");
}
