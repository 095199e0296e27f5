use yggdrasil::bootstrap::marker::YGGMarker;

#[test]
fn test() {
    let mut parser = YGGMarker {};
    let out = parser.parse_program(
        r#"
    ignore! k; ///2
    ignore! [ s ];
    "#,
    );
    println!("{:#?}", out.unwrap());
}
