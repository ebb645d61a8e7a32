use quarry::ce_import::{parse, unescape};
use quarry::value::ValueType;

#[test]
fn parses_simple_and_pointer_entries() {
    let xml = r#"<?xml version="1.0"?>
        <CheatTable>
          <CheatEntries>
            <CheatEntry>
              <Description>"Health"</Description>
              <VariableType>4 Bytes</VariableType>
              <Address>game.exe+1A2B3C</Address>
            </CheatEntry>
            <CheatEntry>
              <Description>"Ammo (ptr)"</Description>
              <VariableType>Float</VariableType>
              <Address>"game.exe"+100</Address>
              <Offsets>
                <Offset>30</Offset>
                <Offset>10</Offset>
              </Offsets>
            </CheatEntry>
            <CheatEntry>
              <Description>"Folder"</Description>
            </CheatEntry>
          </CheatEntries>
        </CheatTable>"#;
    let e = parse(xml).unwrap();
    assert_eq!(e.len(), 2);

    assert_eq!(e[0].desc, "Health");
    assert_eq!(e[0].value_type, Some(ValueType::I32));
    assert_eq!(e[0].module.as_deref(), Some("game.exe"));
    assert_eq!(e[0].base, 0x1A2B3C);
    assert!(!e[0].is_pointer());

    assert_eq!(e[1].value_type, Some(ValueType::F32));
    assert!(e[1].is_pointer());
    assert_eq!(e[1].base, 0x100);
    assert_eq!(e[1].offsets, vec![0x10, 0x30]);
}

#[test]
fn parses_absolute_and_string() {
    let xml = r#"<CheatTable><CheatEntries>
          <CheatEntry><Description>"Abs"</Description>
            <VariableType>8 Bytes</VariableType><Address>7FF600001000</Address></CheatEntry>
          <CheatEntry><Description>"Name"</Description>
            <VariableType>String</VariableType><Length>12</Length><Unicode>1</Unicode>
            <Address>game.exe+50</Address></CheatEntry>
        </CheatEntries></CheatTable>"#;
    let e = parse(xml).unwrap();
    assert_eq!(e[0].module, None);
    assert_eq!(e[0].base, 0x7FF600001000);
    assert_eq!(e[1].value_type, Some(ValueType::StringUtf16));
    assert_eq!(e[1].str_len, 24);
}

#[test]
fn a_file_without_entries_is_refused() {
    let error = parse("<CheatTable></CheatTable>").expect_err("no entry");
    assert_eq!(error, "nenhum <CheatEntry> encontrado — o arquivo e um .CT valido?");
    assert!(parse("").is_err());
}

#[test]
fn entities_in_descriptions() {
    let xml = "<CheatEntry><Description>\"a &lt;b&gt; &amp; &quot;c&quot; &#65;&#x42; &nope; &\"</Description>\
        <VariableType>Byte</VariableType><Address>10</Address></CheatEntry>";
    let e = parse(xml).unwrap();
    assert_eq!(e[0].desc, "a <b> & \"c\" AB &nope; &");
    assert_eq!(e[0].value_type, Some(ValueType::I8));
}

#[test]
fn what_is_escaped_reads_back() {
    let text = "5 > 4 & 'a' < \"b\" &amp;";
    let written = text
        .replace('&', "&amp;")
        .replace('<', "&lt;")
        .replace('>', "&gt;")
        .replace('"', "&quot;")
        .replace('\'', "&apos;");
    let xml = format!(
        "<CheatEntry><Description>{written}</Description>\
        <VariableType>Byte</VariableType><Address>10</Address></CheatEntry>"
    );
    assert_eq!(parse(&xml).unwrap()[0].desc, text);
    assert_eq!(unescape(&written), text);
    assert_eq!(unescape("no entity; here"), "no entity; here");
    assert_eq!(unescape("before &lt;&#x41;&bad;&"), "before <A&bad;&");
}

#[test]
fn sections_of_raw_text_are_dropped() {
    let xml = "<CheatEntry><Description>a</Description><Description><![CDATA[x>y</Description>]]></Description>\
        <VariableType>Byte</VariableType><Address>10</Address></CheatEntry>";
    assert_eq!(parse(xml).unwrap()[0].desc, "a");
    let open = "<CheatEntry><Address>10</Address><VariableType>Byte</VariableType></CheatEntry><![CDATA[ > ";
    assert_eq!(parse(open).unwrap().len(), 1);
}

#[test]
fn a_plain_description_stays() {
    let xml = "<CheatEntry><Description>plain text</Description><VariableType>2 Bytes</VariableType><Address>0x10</Address></CheatEntry>";
    let e = parse(xml).unwrap();
    assert_eq!(e[0].desc, "plain text");
    assert_eq!(e[0].value_type, Some(ValueType::I16));
    assert_eq!(e[0].base, 0x10);
}

#[test]
fn nested_entries_are_flattened_and_only_strings_have_a_length() {
    let xml = "<CheatEntry><Description>folder</Description><CheatEntries>\
        <CheatEntry><Description>in</Description><VariableType>Double</VariableType><Address>20</Address></CheatEntry>\
        <CheatEntry><Description>s</Description><VariableType>String</VariableType><Address>30</Address></CheatEntry>\
        <CheatEntry><Description>script</Description><VariableType>Auto Assembler Script</VariableType></CheatEntry>\
        </CheatEntries></CheatEntry><!-- <CheatEntry> -->";
    let e = parse(xml).unwrap();
    assert_eq!(e.len(), 2);
    assert_eq!(e[0].desc, "in");
    assert_eq!(e[0].str_len, 0);
    assert_eq!(e[1].value_type, Some(ValueType::StringUtf8));
    assert_eq!(e[1].str_len, 16);
    for entry in &e {
        assert!(entry.value_type.is_some() || entry.is_pointer());
    }
}
