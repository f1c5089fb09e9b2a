use better_vdf::{Deserializer, Error, Serializer};

#[derive(Debug, PartialEq)]
struct Obj {
    obj: String,
    id: u64,
    flag: bool,
}

#[derive(Debug, PartialEq)]
struct Data {
    name: String,
    list: Vec<Obj>,
}

fn write_obj(ser: &mut Serializer, o: &Obj) {
    ser.begin_container();
    ser.begin_field("obj");
    ser.serialize_str(&o.obj);
    ser.begin_field("id");
    ser.serialize_u64(o.id);
    ser.begin_field("flag");
    ser.serialize_bool(o.flag);
    ser.end_container();
}

fn write_data(d: &Data) -> String {
    let mut ser = Serializer::new();
    ser.begin_container();
    ser.begin_field("name");
    ser.serialize_str(&d.name);
    ser.begin_field("list");
    ser.begin_container();
    for o in &d.list {
        ser.begin_element();
        write_obj(&mut ser, o);
    }
    ser.end_container();
    ser.end_container();
    ser.into_string()
}

fn expect_key(de: &mut Deserializer, root: bool, key: &str) -> Result<(), Error> {
    assert!(de.next_key(root)?);
    assert_eq!(de.parse_string()?, key);
    Ok(())
}

fn read_obj(de: &mut Deserializer) -> Result<Obj, Error> {
    assert!(!de.begin_map()?);
    expect_key(de, false, "obj")?;
    let obj = de.parse_string()?.to_string();
    expect_key(de, false, "id")?;
    let id = de.parse_unsigned(u64::MAX)?;
    expect_key(de, false, "flag")?;
    let flag = de.parse_bool()?;
    assert!(!de.next_key(false)?);
    Ok(Obj { obj, id, flag })
}

fn read_data(text: &str) -> Result<Data, Error> {
    let mut de = Deserializer::from_str(text);
    let root = de.begin_map()?;
    expect_key(&mut de, root, "name")?;
    let name = de.parse_string()?.to_string();
    expect_key(&mut de, root, "list")?;
    de.begin_seq()?;
    let mut list = Vec::new();
    let mut i: usize = 0;
    while de.next_element(i)? {
        list.push(read_obj(&mut de)?);
        i += 1;
    }
    assert!(!de.next_key(root)?);
    de.finish()?;
    Ok(Data { name, list })
}

#[test]
fn nested_round_trip() {
    let d = Data {
        name: "Better VDF".to_string(),
        list: vec![
            Obj {
                obj: "main_obj".to_string(),
                id: 19231,
                flag: true,
            },
            Obj {
                obj: "secondary_obj".to_string(),
                id: 381928,
                flag: false,
            },
        ],
    };
    let text = write_data(&d);
    assert_eq!(read_data(&text), Ok(d));
}

#[test]
fn root_without_braces_reads_like_encoded() {
    let text = "\"name\"\t\t\"n\"\n\"list\"\n{\n\t\"0\"\n\t{\n\t\t\"obj\" \"o\"\n\t\t\"id\" \"3\"\n\t\t\"flag\" \"1\"\n\t}\n}\n";
    let expected = Data {
        name: "n".to_string(),
        list: vec![Obj {
            obj: "o".to_string(),
            id: 3,
            flag: true,
        }],
    };
    assert_eq!(read_data(text), Ok(expected));
}
