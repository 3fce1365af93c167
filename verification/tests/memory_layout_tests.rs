use chim_compiler::ast::StructField;
use chim_compiler::memory_layout::{align_up, MemoryLayoutAnalyzer};

#[test]
fn test_struct_layout_optimization() {
    let mut analyzer = MemoryLayoutAnalyzer::new();
    let fields = vec![
        StructField { name: "flag1".to_string(), ty: "bool".to_string() },
        StructField { name: "value".to_string(), ty: "int".to_string() },
        StructField { name: "flag2".to_string(), ty: "bool".to_string() },
    ];
    let layout = analyzer.analyze_struct("TestStruct", &fields);
    assert_eq!(layout.size, 8);
    assert_eq!(layout.alignment, 4);
    let savings = analyzer.calculate_savings("TestStruct", &fields);
    assert_eq!(savings, 4);
}

#[test]
fn test_type_info() {
    let analyzer = MemoryLayoutAnalyzer::new();
    assert_eq!(analyzer.get_type_info("int"), (4, 4));
    assert_eq!(analyzer.get_type_info("float"), (4, 4));
    assert_eq!(analyzer.get_type_info("bool"), (1, 1));
    assert_eq!(analyzer.get_type_info("string"), (16, 8));
}

#[test]
fn test_align_up() {
    assert_eq!(align_up(0, 4), 0);
    assert_eq!(align_up(1, 4), 4);
    assert_eq!(align_up(3, 4), 4);
    assert_eq!(align_up(4, 4), 4);
    assert_eq!(align_up(5, 4), 8);
}

#[test]
fn layout_orders_and_offsets() {
    let mut analyzer = MemoryLayoutAnalyzer::new();
    let fields = vec![
        StructField { name: "a".to_string(), ty: "bool".to_string() },
        StructField { name: "s".to_string(), ty: "string".to_string() },
        StructField { name: "i".to_string(), ty: "int".to_string() },
    ];
    let layout = analyzer.analyze_struct("S", &fields);
    assert_eq!(layout.optimized_order, vec!["s".to_string(), "i".to_string(), "a".to_string()]);
    assert_eq!(layout.original_order, vec!["a".to_string(), "s".to_string(), "i".to_string()]);
    assert_eq!(layout.field_offsets, vec![0, 16, 20]);
    assert_eq!(layout.size, 24);
    assert_eq!(layout.alignment, 8);
    // a known struct is used as a field type
    assert_eq!(analyzer.get_type_info("S"), (24, 8));
    assert_eq!(analyzer.get_type_info("Unknown"), (8, 8));
    assert!(analyzer.get_layout("S").is_some());
    assert!(analyzer.get_layout("T").is_none());
}

#[test]
fn layout_laws_on_a_mixed_struct() {
    let mut analyzer = MemoryLayoutAnalyzer::new();
    let names = ["a", "b", "c", "d", "e", "f"];
    let types = ["bool", "string", "int", "bool", "float", "string"];
    let fields: Vec<StructField> = names
        .iter()
        .zip(types.iter())
        .map(|(n, t)| StructField { name: n.to_string(), ty: t.to_string() })
        .collect();
    let layout = analyzer.analyze_struct("M", &fields);
    let info = |t: &str| match t {
        "bool" => (1usize, 1usize),
        "int" | "float" => (4, 4),
        _ => (16, 8),
    };
    let mut sorted_names = layout.optimized_order.clone();
    sorted_names.sort();
    let mut all: Vec<String> = names.iter().map(|n| n.to_string()).collect();
    all.sort();
    assert_eq!(sorted_names, all);
    let ty_of = |n: &String| types[names.iter().position(|x| *x == n.as_str()).unwrap()];
    for w in layout.optimized_order.windows(2) {
        assert!(info(ty_of(&w[0])).1 >= info(ty_of(&w[1])).1);
    }
    for (k, n) in layout.optimized_order.iter().enumerate() {
        let (size, align) = info(ty_of(n));
        assert_eq!(layout.field_offsets[k] % align, 0);
        if k + 1 < layout.field_offsets.len() {
            assert!(layout.field_offsets[k] + size <= layout.field_offsets[k + 1]);
        } else {
            assert!(layout.field_offsets[k] + size <= layout.size);
        }
    }
    assert_eq!(layout.size % layout.alignment, 0);
}
