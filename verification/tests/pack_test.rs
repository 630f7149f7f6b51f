use packman::Pack;
use serde_json::Value;

fn enc_i32(v: i32) -> Vec<u8> {
    serde_json::to_vec(&v).unwrap()
}

fn dec_i32(b: &[u8]) -> i32 {
    serde_json::from_slice(b).unwrap()
}

fn new_i32_pack(name: &str) -> Pack {
    Pack::load_or_init("data/pack_test", name, None, enc_i32(0)).unwrap()
}

fn enc_car(fuel: &str, number_of_seats: u32) -> Vec<u8> {
    let mut m = serde_json::Map::new();
    m.insert("fuel".to_string(), Value::String(fuel.to_string()));
    m.insert("number_of_seats".to_string(), Value::from(number_of_seats));
    serde_json::to_vec(&Value::Object(m)).unwrap()
}

fn car_seats(b: &[u8]) -> u32 {
    let v: Value = serde_json::from_slice(b).unwrap();
    v["number_of_seats"].as_u64().unwrap() as u32
}

#[test]
fn test_load_or_init() {
    let meaning_of_life = Pack::load_or_init("data/pack_test", "meaning_of_life", None, enc_i32(0));
    assert_eq!(meaning_of_life.is_ok(), true);
}

#[test]
fn test_update() {
    let mut meaning_of_life = new_i32_pack("meaning_of_life_update");
    meaning_of_life.update(enc_i32(17)).unwrap();
    meaning_of_life.update(enc_i32(42)).unwrap();
    assert_eq!(dec_i32(meaning_of_life.unpack()), 42);
}

#[test]
fn test_as_mut() {
    let mut meaning_of_life = new_i32_pack("meaning_of_life_as_mut");
    meaning_of_life.update(enc_i32(17)).unwrap();
    assert_eq!(dec_i32(meaning_of_life.unpack()), 17);
    meaning_of_life.update(enc_i32(42)).unwrap();
    assert_eq!(dec_i32(meaning_of_life.unpack()), 42);
}

fn get_seats(car: &Pack) -> u32 {
    car_seats(car.unpack())
}

#[test]
fn test_as_ref() {
    let mut meaning_of_life =
        Pack::load_or_init("data/pack_test", "meaning_of_life_as_ref", None, enc_car("", 0)).unwrap();
    meaning_of_life.update(enc_car("", 4)).unwrap();
    assert_eq!(get_seats(&meaning_of_life), 4);
}

#[test]
fn test_as_deref() {
    let mut meaning_of_life = new_i32_pack("meaning_of_life_deref");
    meaning_of_life.update(enc_i32(42)).unwrap();

    // Keep the bytes of the file, drop the pack
    let stored = meaning_of_life.image().clone();
    drop(meaning_of_life);

    // Load it again and read the stored value
    let meaning_of_life =
        Pack::load_or_init("data/pack_test", "meaning_of_life_deref", Some(stored), enc_i32(0)).unwrap();
    assert_eq!(dec_i32(meaning_of_life.unpack()), 42);
}

#[test]
fn test_vector() {
    let mut meaning_of_life = Pack::load_or_init(
        "data/pack_test",
        "meaning_of_life_vec",
        None,
        serde_json::to_vec(&Vec::<i32>::new()).unwrap(),
    )
    .unwrap();
    for i in 1..=3 {
        let mut v: Vec<i32> = serde_json::from_slice(meaning_of_life.unpack()).unwrap();
        v.push(i);
        meaning_of_life.update(serde_json::to_vec(&v).unwrap()).unwrap();
    }
    let v: Vec<i32> = serde_json::from_slice(meaning_of_life.unpack()).unwrap();
    assert_eq!(v, vec![1, 2, 3]);
}

#[test]
fn test_get() {
    let mut meaning_of_life = new_i32_pack("meaning_of_life_get");
    meaning_of_life.update(enc_i32(42)).unwrap();
    assert_eq!(meaning_of_life.get(|i| dec_i32(i)), 42);
}

#[test]
fn test_map() {
    let mut meaning_of_life = new_i32_pack("meaning_of_life_map");
    meaning_of_life.update(enc_i32(42)).unwrap();
    assert_eq!(meaning_of_life.map(|i| dec_i32(i) * 2), 84);
}

#[test]
fn test_update_iter_1000() {
    let mut meaning_of_life = new_i32_pack("meaning_of_life_update_iter_1000");
    for _ in 0..1000 {
        let v = dec_i32(meaning_of_life.unpack()) + 1;
        meaning_of_life.update(enc_i32(v)).unwrap();
    }
    assert_eq!(meaning_of_life.get(|i| dec_i32(i)), 1000);
}

#[test]
fn test_update_iter_10000() {
    let mut meaning_of_life = new_i32_pack("meaning_of_life_update_iter_10000");
    for _ in 0..10000 {
        let v = dec_i32(meaning_of_life.unpack()) + 1;
        meaning_of_life.update(enc_i32(v)).unwrap();
    }
    assert_eq!(meaning_of_life.get(|i| dec_i32(i)), 10000);
}

#[test]
fn test_struct() {
    let mut meaning_of_life =
        Pack::load_or_init("data/pack_test", "meaning_of_life_struct", None, enc_car("", 0)).unwrap();
    meaning_of_life.update(enc_car("electric", 6)).unwrap();
    let v: Value = serde_json::from_slice(meaning_of_life.unpack()).unwrap();
    assert_eq!(v["fuel"].as_str().unwrap(), "electric".to_string());
}

struct User {
    name: String,
    age: i32,
    sex: Sex,
}

struct User2 {
    pub sex: Sex,
    pub age: i32,
    pub name: String,
}

struct User3 {
    pub sex: Sex2,
    pub age: i32,
    pub name: String,
}

enum Sex {
    Male,
    Female,
}

enum Sex2 {
    Unknown,
    Male,
    Female,
}

impl Default for User {
    fn default() -> Self {
        User { name: String::new(), age: 0, sex: Sex::Male }
    }
}

/// A user as a JSON object: fields and the variant by name.
fn encode_user(u: &User) -> Vec<u8> {
    let mut m = serde_json::Map::new();
    m.insert("name".to_string(), Value::String(u.name.clone()));
    m.insert("age".to_string(), Value::from(u.age));
    let sex = match u.sex {
        Sex::Male => "Male",
        Sex::Female => "Female",
    };
    m.insert("sex".to_string(), Value::String(sex.to_string()));
    serde_json::to_vec(&Value::Object(m)).unwrap()
}

/// Reads the fields by name, in `User2`'s own order.
fn decode_user2(b: &[u8]) -> User2 {
    let v: Value = serde_json::from_slice(b).unwrap();
    let sex = match v["sex"].as_str().unwrap() {
        "Male" => Sex::Male,
        "Female" => Sex::Female,
        other => panic!("unknown variant {}", other),
    };
    let age = v["age"].as_i64().unwrap() as i32;
    let name = v["name"].as_str().unwrap().to_string();
    User2 { sex, age, name }
}

/// Reads the fields by name into `User3`, whose enum has one more variant.
fn decode_user3(b: &[u8]) -> User3 {
    let v: Value = serde_json::from_slice(b).unwrap();
    let sex = match v["sex"].as_str().unwrap() {
        "Unknown" => Sex2::Unknown,
        "Male" => Sex2::Male,
        "Female" => Sex2::Female,
        other => panic!("unknown variant {}", other),
    };
    let age = v["age"].as_i64().unwrap() as i32;
    let name = v["name"].as_str().unwrap().to_string();
    User3 { sex, age, name }
}

#[test]
fn test_field_order_update() {
    let stored = {
        let mut u1 = Pack::load_or_init("data/pack_test", "test_user", None, encode_user(&User::default())).unwrap();
        let u = User { name: "Peter".to_string(), age: 33, sex: Sex::Male };
        u1.update(encode_user(&u)).unwrap();
        u1.image().clone()
    };
    let u2p = Pack::load_or_init("data/pack_test", "test_user", Some(stored.clone()), encode_user(&User::default()))
        .unwrap();
    let u2 = decode_user2(u2p.unpack());
    assert_eq!(&u2.name, "Peter");
    assert_eq!(&u2.age, &33);
    assert!(match &u2.sex {
        Sex::Male => true,
        Sex::Female => false,
    });

    let u3p = Pack::load_or_init("data/pack_test", "test_user", Some(stored), encode_user(&User::default()))
        .unwrap();
    let u3 = decode_user3(u3p.unpack());
    assert_eq!(&u3.name, "Peter");
    assert_eq!(&u3.age, &33);
    assert!(match &u3.sex {
        Sex2::Male => true,
        _ => false,
    });
}
