use blenderfile::error::BlendError;
use blenderfile::file::{Arch, BlenderFile, Endian};
use blenderfile::file_block::FileBlockHeaderMap;
use blenderfile::query::Value;
use blenderfile::sdna::{PointerType, SDNA, StructureType};

fn put_u16(out: &mut Vec<u8>, v: u16) {
    out.extend_from_slice(&v.to_le_bytes());
}

fn put_u32(out: &mut Vec<u8>, v: u32) {
    out.extend_from_slice(&v.to_le_bytes());
}

fn put_u64(out: &mut Vec<u8>, v: u64) {
    out.extend_from_slice(&v.to_le_bytes());
}

fn pad4(out: &mut Vec<u8>, base: usize) {
    while (out.len() - base) % 4 != 0 {
        out.push(0);
    }
}

fn catalog() -> Vec<u8> {
    let names = [
        "*next", "name[8]", "id", "*data", "loc[3]", "flag", "*mvert", "**mat", "totvert", "co[3]",
        "bweight",
    ];
    let types: [(&str, u16); 9] = [
        ("char", 1),
        ("short", 2),
        ("int", 4),
        ("float", 4),
        ("void", 0),
        ("ID", 16),
        ("Object", 40),
        ("Mesh", 40),
        ("MVert", 16),
    ];
    let records: [(u16, &[(u16, u16)]); 4] = [
        (5, &[(4, 0), (0, 1)]),
        (6, &[(5, 2), (4, 3), (3, 4), (2, 5)]),
        (7, &[(5, 2), (8, 6), (4, 7), (2, 8), (2, 5)]),
        (8, &[(3, 9), (1, 5), (1, 10)]),
    ];
    let mut d = Vec::new();
    d.extend_from_slice(b"SDNANAME");
    put_u32(&mut d, names.len() as u32);
    for n in names.iter() {
        d.extend_from_slice(n.as_bytes());
        d.push(0);
    }
    pad4(&mut d, 0);
    d.extend_from_slice(b"TYPE");
    put_u32(&mut d, types.len() as u32);
    for (n, _) in types.iter() {
        d.extend_from_slice(n.as_bytes());
        d.push(0);
    }
    pad4(&mut d, 0);
    d.extend_from_slice(b"TLEN");
    for (_, s) in types.iter() {
        put_u16(&mut d, *s);
    }
    pad4(&mut d, 0);
    d.extend_from_slice(b"STRC");
    put_u32(&mut d, records.len() as u32);
    for (t, fields) in records.iter() {
        put_u16(&mut d, *t);
        put_u16(&mut d, fields.len() as u16);
        for (ft, fn_) in fields.iter() {
            put_u16(&mut d, *ft);
            put_u16(&mut d, *fn_);
        }
    }
    d
}

fn block(out: &mut Vec<u8>, code: &[u8; 4], addr: u64, sdna: u32, count: u32, payload: &[u8]) {
    out.extend_from_slice(code);
    put_u32(out, payload.len() as u32);
    put_u64(out, addr);
    put_u32(out, sdna);
    put_u32(out, count);
    out.extend_from_slice(payload);
}

fn id(name: &[u8; 8]) -> Vec<u8> {
    let mut p = Vec::new();
    put_u64(&mut p, 0);
    p.extend_from_slice(name);
    p
}

fn object() -> Vec<u8> {
    let mut p = id(b"OBCube\0\0");
    put_u64(&mut p, 0x2000);
    for f in [1.0f32, 2.0, 3.0].iter() {
        put_u32(&mut p, f.to_bits());
    }
    put_u32(&mut p, 7);
    p
}

fn mesh() -> Vec<u8> {
    let mut p = id(b"MECube\0\0");
    put_u64(&mut p, 0x3000);
    put_u64(&mut p, 0x5000);
    put_u32(&mut p, 2);
    put_u32(&mut p, 0);
    p
}

fn verts() -> Vec<u8> {
    let mut p = Vec::new();
    for (co, flag, bw) in [([0.5f32, -0.5, 1.0], 1i16, -3i16), ([1.5f32, 2.5, -1.0], 2, 4)].iter() {
        for f in co.iter() {
            put_u32(&mut p, f.to_bits());
        }
        put_u16(&mut p, *flag as u16);
        put_u16(&mut p, *bw as u16);
    }
    p
}

fn fixture_with(dna: &[u8]) -> Vec<u8> {
    let mut out = b"BLENDER-v279".to_vec();
    block(&mut out, b"OB\0\0", 0x1000, 1, 1, &object());
    block(&mut out, b"ME\0\0", 0x2000, 2, 1, &mesh());
    block(&mut out, b"DATA", 0x3000, 3, 2, &verts());
    block(&mut out, b"DNA1", 0x4000, 0, 1, dna);
    block(&mut out, b"ENDB", 0, 0, 0, &[]);
    out
}

fn fixture() -> Vec<u8> {
    fixture_with(&catalog())
}

fn open(bytes: Vec<u8>) -> (BlenderFile, FileBlockHeaderMap, SDNA) {
    let bf = BlenderFile::new("resources/rust-cube.blend", bytes).unwrap();
    let map = FileBlockHeaderMap::new(&bf).unwrap();
    let sdna = SDNA::new(&bf, &map).unwrap();
    (bf, map, sdna)
}

#[test]
fn create_new_blenderfile() {
    let bf = BlenderFile::new("resources/rust-cube.blend", fixture()).unwrap();
    let result = bf.version;
    let expected = String::from("279");
    assert_eq!(expected, result);
}

#[test]
fn verify_endian() {
    let bf = BlenderFile::new("resources/rust-cube.blend", fixture()).unwrap();
    assert!(matches!(bf.endian, Endian::LittleEndian));
}

#[test]
fn verify_architecture() {
    let bf = BlenderFile::new("resources/rust-cube.blend", fixture()).unwrap();
    assert!(matches!(bf.arch, Arch::Arch64));
}

#[test]
fn header_of_fixture() {
    let bf = BlenderFile::new("a.blend", fixture()).unwrap();
    assert_eq!(bf.version, "279");
    assert_eq!(bf.endian, Endian::LittleEndian);
    assert_eq!(bf.pointer_size, 8);
    assert_eq!(bf.file, "a.blend");
}

#[test]
fn header_markers_for_32_bit_big_endian() {
    let mut bytes = b"BLENDER_V248".to_vec();
    bytes.extend_from_slice(&[0x12, 0x34, 0x56, 0x78]);
    let bf = BlenderFile::new("b.blend", bytes).unwrap();
    assert_eq!(bf.arch, Arch::Arch32);
    assert_eq!(bf.endian, Endian::BigEndian);
    assert_eq!(bf.pointer_size, 4);
    assert_eq!(bf.u32(12), Ok(0x1234_5678));
    assert_eq!(bf.u16(12), Ok(0x1234));
}

#[test]
fn zeroed_magic_is_bad_magic() {
    let mut bytes = fixture();
    for b in bytes.iter_mut().take(7) {
        *b = 0;
    }
    assert_eq!(BlenderFile::new("z.blend", bytes).unwrap_err(), BlendError::BadMagic);
}

#[test]
fn short_file_is_bad_magic() {
    assert_eq!(BlenderFile::new("s", b"BLEND".to_vec()).unwrap_err(), BlendError::BadMagic);
    assert_eq!(BlenderFile::new("s", Vec::new()).unwrap_err(), BlendError::BadMagic);
}

#[test]
fn bad_markers_are_refused() {
    assert_eq!(BlenderFile::new("a", b"BLENDER*v279".to_vec()).unwrap_err(), BlendError::BadArchMarker);
    assert_eq!(BlenderFile::new("e", b"BLENDER-x279".to_vec()).unwrap_err(), BlendError::BadEndianMarker);
    assert_eq!(BlenderFile::new("v", b"BLENDER-v2a9".to_vec()).unwrap_err(), BlendError::BadMagic);
    assert_eq!(BlenderFile::new("v", b"BLENDER-v27".to_vec()).unwrap_err(), BlendError::BadMagic);
}

#[test]
fn typed_reads_little_endian() {
    let mut bytes = b"BLENDER-v279".to_vec();
    bytes.extend_from_slice(&[0xfe, 0xff, 0xff, 0xff, 0xff, 0xff, 0xff, 0xff]);
    let bf = BlenderFile::new("r", bytes).unwrap();
    assert_eq!(bf.u16(12), Ok(0xfffe));
    assert_eq!(bf.i16(12), Ok(-2));
    assert_eq!(bf.u32(12), Ok(0xffff_fffe));
    assert_eq!(bf.i32(12), Ok(-2));
    assert_eq!(bf.u64(12), Ok(0xffff_ffff_ffff_fffe));
    assert_eq!(bf.i64(12), Ok(-2));
    assert_eq!(bf.i16(0), Ok(0x4c42));
    assert_eq!(bf.u64(13), Err(BlendError::OutOfBounds));
    assert_eq!(bf.u16(19), Err(BlendError::OutOfBounds));
    assert_eq!(bf.u16(usize::MAX), Err(BlendError::OutOfBounds));
}

#[test]
fn typed_reads_big_endian() {
    let mut bytes = b"BLENDER-V279".to_vec();
    bytes.extend_from_slice(&[0x80, 0, 0, 0, 0, 0, 0, 1]);
    let bf = BlenderFile::new("r", bytes).unwrap();
    assert_eq!(bf.u16(12), Ok(0x8000));
    assert_eq!(bf.i16(12), Ok(i16::MIN));
    assert_eq!(bf.i32(12), Ok(i32::MIN));
    assert_eq!(bf.u64(12), Ok(0x8000_0000_0000_0001));
    assert_eq!(bf.i64(12), Ok(i64::MIN + 1));
}

#[test]
fn find_by_code_returns_mesh() {
    let bf = BlenderFile::new("f", fixture()).unwrap();
    let map = FileBlockHeaderMap::new(&bf).unwrap();
    let me = map.find("ME");
    assert_eq!(me.len(), 1);
    assert_eq!(me[0].code, "ME");
    assert_eq!(me[0].old_mem_adr, 0x2000);
    assert_eq!(me[0].size, 40);
    assert_eq!(me[0].count, 1);
    assert_eq!(me[0].offset, 12 + 24 + 40);
    assert_eq!(me[0].content_offset, me[0].offset + 24);
    assert!(map.find("XX").is_empty());
}

#[test]
fn blocks_lie_within_content() {
    let bf = BlenderFile::new("f", fixture()).unwrap();
    let map = FileBlockHeaderMap::new(&bf).unwrap();
    assert_eq!(map.blocks().len(), 5);
    for b in map.blocks().iter() {
        assert!(b.content_offset + b.size <= bf.content.len());
    }
    assert_eq!(map.blocks()[4].code, "ENDB");
    assert_eq!(map.map().len(), 5);
}

#[test]
fn lookup_by_address() {
    let bf = BlenderFile::new("f", fixture()).unwrap();
    let map = FileBlockHeaderMap::new(&bf).unwrap();
    let h = map.get(&0x3000).unwrap();
    assert_eq!(h.old_mem_adr, 0x3000);
    assert_eq!(h.code, "DATA");
    assert_eq!(h.count, 2);
    assert!(map.get(&0x5000).is_none());
    let copy = h.duplicate();
    assert_eq!(copy.offset, h.offset);
}

#[test]
fn bytes_after_endb_are_ignored() {
    let plain = fixture();
    let mut longer = plain.clone();
    longer.extend_from_slice(b"trailing garbage that is not a block");
    let a = BlenderFile::new("a", plain).unwrap();
    let b = BlenderFile::new("b", longer).unwrap();
    let ma = FileBlockHeaderMap::new(&a).unwrap();
    let mb = FileBlockHeaderMap::new(&b).unwrap();
    assert_eq!(ma.blocks().len(), mb.blocks().len());
    for (x, y) in ma.blocks().iter().zip(mb.blocks().iter()) {
        assert_eq!(x.offset, y.offset);
        assert_eq!(x.code, y.code);
        assert_eq!(x.old_mem_adr, y.old_mem_adr);
    }
}

#[test]
fn truncated_chain_is_out_of_bounds() {
    let mut bytes = fixture();
    bytes.truncate(bytes.len() - 24);
    let bf = BlenderFile::new("t", bytes).unwrap();
    assert_eq!(FileBlockHeaderMap::new(&bf).unwrap_err(), BlendError::OutOfBounds);
    let mut bytes = fixture();
    bytes.truncate(12 + 24 + 10);
    let bf = BlenderFile::new("t", bytes).unwrap();
    assert_eq!(FileBlockHeaderMap::new(&bf).unwrap_err(), BlendError::OutOfBounds);
}

#[test]
fn duplicate_addresses_keep_the_last_block() {
    let mut out = b"BLENDER-v279".to_vec();
    block(&mut out, b"AA\0\0", 0, 0, 1, &[1, 2, 3, 4]);
    block(&mut out, b"BB\0\0", 0, 0, 1, &[5, 6]);
    block(&mut out, b"ENDB", 7, 0, 0, &[]);
    let bf = BlenderFile::new("d", out).unwrap();
    let map = FileBlockHeaderMap::new(&bf).unwrap();
    assert_eq!(map.get(&0).unwrap().code, "BB");
    assert_eq!(map.find("AA").len(), 1);
    assert_eq!(map.map().len(), 2);
}

#[test]
fn object_record_has_data_pointer() {
    let (_, _, sdna) = open(fixture());
    let ob = sdna.structure(&String::from("Object")).unwrap();
    assert_eq!(ob.name(), "Object");
    let data = ob.member(&String::from("data")).unwrap();
    assert_eq!(data.identifier, "data");
    assert_eq!(data.declaration, "*data");
    assert_eq!(data.pointer_type, PointerType::Pointer);
    assert!(matches!(data.structure_type, StructureType::Void));
    assert_eq!(data.size, 8);
    assert_eq!(data.offset, 16);
    assert!(ob.member(&String::from("missing")).is_none());
    assert!(sdna.structure(&String::from("Camera")).is_none());
}

#[test]
fn mesh_vertices_pointer_targets_mvert() {
    let (bf, map, sdna) = open(fixture());
    let me = map.find("ME")[0];
    let mesh = sdna.structure(&String::from("Mesh")).unwrap();
    let mvert = mesh.member(&String::from("mvert")).unwrap();
    let addr = bf.u64(me.content_offset + mvert.offset).unwrap();
    let target = map.get(&addr).unwrap();
    assert_eq!(target.old_mem_adr, addr);
    assert_eq!(sdna.structure_by_index(target.sdna_index).unwrap().name(), "MVert");
}

#[test]
fn query_object_data_is_mesh_address() {
    let (bf, map, sdna) = open(fixture());
    let me = map.find("ME")[0];
    assert_eq!(sdna.query(&bf, &map, "OB", "data"), Ok(Value::Pointer(me.old_mem_adr)));
}

#[test]
fn query_follows_pointers_and_nested_records() {
    let (bf, map, sdna) = open(fixture());
    let ob = map.find("OB")[0];
    assert_eq!(sdna.query(&bf, &map, "OB", "data.totvert"), Ok(Value::Int(2)));
    assert_eq!(sdna.query(&bf, &map, "OB", "data.mvert.flag"), Ok(Value::Short(1)));
    assert_eq!(sdna.query(&bf, &map, "OB", "data.mvert.bweight"), Ok(Value::Short(-3)));
    assert_eq!(sdna.query(&bf, &map, "OB", "flag"), Ok(Value::Int(7)));
    assert_eq!(sdna.query(&bf, &map, "OB", "loc"), Ok(Value::Float(1.0f32.to_bits())));
    assert_eq!(sdna.query(&bf, &map, "OB", "id"), Ok(Value::Complex(ob.content_offset)));
    assert_eq!(sdna.query(&bf, &map, "OB", "id.name"), Ok(Value::Char(b'O' as i8)));
    assert_eq!(sdna.query(&bf, &map, "OB", "id.next"), Ok(Value::Pointer(0)));
    assert_eq!(sdna.query(&bf, &map, "ME", "mat"), Ok(Value::PointerPointer(0x5000)));
    assert_eq!(sdna.query(&bf, &map, "DATA", "co"), Ok(Value::Float(0.5f32.to_bits())));
}

#[test]
fn query_errors() {
    let (bf, map, sdna) = open(fixture());
    assert_eq!(sdna.query(&bf, &map, "OB", "nothing"), Err(BlendError::UnknownMember));
    assert_eq!(sdna.query(&bf, &map, "OB", ""), Err(BlendError::UnknownMember));
    assert_eq!(sdna.query(&bf, &map, "OB", "data."), Err(BlendError::UnknownMember));
    assert_eq!(sdna.query(&bf, &map, "OB", "flag.x"), Err(BlendError::UnknownMember));
    assert_eq!(sdna.query(&bf, &map, "ME", "mat.x"), Err(BlendError::UnsupportedIndirection));
    assert_eq!(sdna.query(&bf, &map, "OB", "id.next.name"), Err(BlendError::DanglingPointer));
    assert_eq!(sdna.query(&bf, &map, "XX", "data"), Err(BlendError::UnknownRecord));
}

#[test]
fn query_through_unknown_address_is_dangling() {
    let mut dna_file = fixture();
    let ob_payload = 12 + 24;
    dna_file[ob_payload + 16] = 0x99;
    let (bf, map, sdna) = open(dna_file);
    assert_eq!(sdna.query(&bf, &map, "OB", "data.totvert"), Err(BlendError::DanglingPointer));
}

#[test]
fn record_found_by_name_is_found_by_index() {
    let (_, _, sdna) = open(fixture());
    for name in ["ID", "Object", "Mesh", "MVert"].iter() {
        let n = String::from(*name);
        let i = sdna.structure_index(&n).unwrap();
        assert_eq!(sdna.structure_by_index(i).unwrap().name(), *name);
    }
    assert!(sdna.structure_by_index(4).is_none());
    assert!(sdna.structure_index(&String::from("Scene")).is_none());
}

#[test]
fn member_offsets_and_sizes_add_up() {
    let (_, _, sdna) = open(fixture());
    for st in sdna.structures.iter() {
        let mut sum = 0;
        for m in st.members.iter() {
            assert_eq!(m.offset, sum);
            sum += m.size;
        }
        assert_eq!(sum, st.ty.size);
    }
    let mesh = sdna.structure(&String::from("Mesh")).unwrap();
    let offsets: Vec<usize> = mesh.members.iter().map(|m| m.offset).collect();
    assert_eq!(offsets, vec![0, 16, 24, 32, 36]);
}

#[test]
fn every_block_names_a_record() {
    let (_, map, sdna) = open(fixture());
    for b in map.blocks().iter() {
        if b.code != "ENDB" {
            let st = sdna.structure_by_index(b.sdna_index).unwrap();
            assert!(!st.ty.name.is_empty());
        }
    }
}

#[test]
fn void_is_simple_and_pointers_take_pointer_width() {
    let (_, _, sdna) = open(fixture());
    assert!(SDNA::is_simple(&String::from("void")));
    assert!(!SDNA::is_simple(&String::from("ListBase")));
    let void_ty = &sdna.types[4];
    assert_eq!(void_ty.name, "void");
    assert!(void_ty.is_simple);
    let mesh = sdna.structure(&String::from("Mesh")).unwrap();
    let mvert = mesh.member(&String::from("mvert")).unwrap();
    assert!(matches!(&mvert.structure_type, StructureType::Complex(n) if n == "MVert"));
    assert_eq!(mvert.size, 8);
    let mat = mesh.member(&String::from("mat")).unwrap();
    assert_eq!(mat.pointer_type, PointerType::PointerPointer);
    assert_eq!(mat.size, 8);
}

#[test]
fn array_members_carry_dimensions() {
    let (_, _, sdna) = open(fixture());
    let ob = sdna.structure(&String::from("Object")).unwrap();
    let loc = ob.member(&String::from("loc")).unwrap();
    assert_eq!(loc.dimensions, vec![3]);
    assert_eq!(loc.size, 12);
    assert!(matches!(loc.structure_type, StructureType::Float));
    let id = sdna.structure(&String::from("ID")).unwrap();
    let name = id.member(&String::from("name")).unwrap();
    assert_eq!(name.dimensions, vec![8]);
    assert_eq!(name.size, 8);
}

#[test]
fn missing_dna_block() {
    let mut out = b"BLENDER-v279".to_vec();
    block(&mut out, b"OB\0\0", 0x1000, 0, 1, &[0; 8]);
    block(&mut out, b"ENDB", 0, 0, 0, &[]);
    let bf = BlenderFile::new("m", out).unwrap();
    let map = FileBlockHeaderMap::new(&bf).unwrap();
    assert_eq!(SDNA::new(&bf, &map).unwrap_err(), BlendError::MissingDNA);
}

#[test]
fn corrupt_catalog_is_bad_dna() {
    let mut dna = catalog();
    dna[0] = b'X';
    let bf = BlenderFile::new("c", fixture_with(&dna)).unwrap();
    let map = FileBlockHeaderMap::new(&bf).unwrap();
    assert_eq!(SDNA::new(&bf, &map).unwrap_err(), BlendError::BadDNA);

    let mut dna = catalog();
    dna[8] = 12;
    let bf = BlenderFile::new("c", fixture_with(&dna)).unwrap();
    let map = FileBlockHeaderMap::new(&bf).unwrap();
    assert_eq!(SDNA::new(&bf, &map).unwrap_err(), BlendError::BadDNA);

    let mut dna = catalog();
    let n = dna.len();
    dna[n - 2] = 50;
    let bf = BlenderFile::new("c", fixture_with(&dna)).unwrap();
    let map = FileBlockHeaderMap::new(&bf).unwrap();
    assert_eq!(SDNA::new(&bf, &map).unwrap_err(), BlendError::BadDNA);
}

#[test]
fn block_naming_no_record_is_bad_dna() {
    let mut out = b"BLENDER-v279".to_vec();
    block(&mut out, b"OB\0\0", 0x1000, 9, 1, &object());
    block(&mut out, b"DNA1", 0x4000, 0, 1, &catalog());
    block(&mut out, b"ENDB", 0, 0, 0, &[]);
    let bf = BlenderFile::new("c", out).unwrap();
    let map = FileBlockHeaderMap::new(&bf).unwrap();
    assert_eq!(SDNA::new(&bf, &map).unwrap_err(), BlendError::BadDNA);
}

#[test]
fn pretty_print_lists_members() {
    let (_, _, sdna) = open(fixture());
    let mesh = sdna.structure(&String::from("Mesh")).unwrap();
    let text = mesh.pretty_print();
    assert!(text.starts_with("Mesh {\n"));
    assert!(text.ends_with("}\n"));
    assert!(text.contains(
        "\tMVert               \t*mvert                   \t(8)\t(16)\t(Complex(\"MVert\"), pointer);\n"
    ));
    assert!(text.contains("\tint                 \ttotvert                  \t(4)\t(32)\t(Int);\n"));
    assert_eq!(text.lines().count(), 7);
    let ob = sdna.structure(&String::from("Object")).unwrap();
    assert!(ob.pretty_print().contains("(12)\t(24)\t(Float, 1-dim array);\n"));
}
