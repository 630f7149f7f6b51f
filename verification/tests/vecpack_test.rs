use packman::{Pack, VecPack};
use serde_json::Value;

fn enc_car(id: &str, name: &str, hp: u32) -> Vec<u8> {
    let mut m = serde_json::Map::new();
    m.insert("id".to_string(), Value::String(id.to_string()));
    m.insert("name".to_string(), Value::String(name.to_string()));
    m.insert("hp".to_string(), Value::from(hp));
    serde_json::to_vec(&Value::Object(m)).unwrap()
}

fn field(p: &Pack, key: &str) -> Value {
    let v: Value = serde_json::from_slice(p.unpack()).unwrap();
    v[key].clone()
}

fn hp(p: &Pack) -> u64 {
    field(p, "hp").as_u64().unwrap()
}

/// The member's value with one field changed.
fn with_field(p: &Pack, key: &str, value: Value) -> Vec<u8> {
    let mut v: Value = serde_json::from_slice(p.unpack()).unwrap();
    v[key] = value;
    serde_json::to_vec(&v).unwrap()
}

fn insert_car(cars: &mut VecPack, id: &str, name: &str, hp: u32) {
    cars.insert(id, enc_car(id, name, hp)).unwrap();
}

#[test]
fn test_vecpack_load_or_init() {
    let meaning_of_life = VecPack::load_or_init("data/vecpack_test_load_or_init", &Vec::new());
    assert_eq!(meaning_of_life.is_ok(), true);
    assert_eq!(meaning_of_life.unwrap().len(), 0);
}

fn create_dummy_vecpack(path: &str) -> VecPack {
    let mut meaning_of_life = VecPack::load_or_init(path, &Vec::new()).unwrap();
    insert_car(&mut meaning_of_life, "1", "CarSmall", 150);
    insert_car(&mut meaning_of_life, "2", "CarBig", 650);
    insert_car(&mut meaning_of_life, "3", "CarMedium", 250);
    meaning_of_life
}

#[test]
fn test_vecpack_insert() {
    let mut meaning_of_life = VecPack::load_or_init("data/vecpack_test_insert", &Vec::new()).unwrap();
    insert_car(&mut meaning_of_life, "1", "CarSmall", 150);
    insert_car(&mut meaning_of_life, "2", "CarBig", 650);
    insert_car(&mut meaning_of_life, "3", "CarMedium", 250);
    assert_eq!(meaning_of_life.len(), 3);
}

#[test]
fn test_vecpack_as_mut() {
    let mut cars = create_dummy_vecpack("data/vecpack_test_as_mut");
    for i in 0..cars.len() {
        let car = cars.get_mut(i).unwrap();
        let data = with_field(car, "hp", Value::from(1));
        car.update(data).unwrap();
    }
    assert_eq!(hp(cars.get(0).unwrap()), 1);
}

#[test]
fn test_vecpack_find_id() {
    let cars = create_dummy_vecpack("data/vecpack_test_find_id");
    assert_eq!(cars.find_id("3").is_ok(), true);
    assert_eq!(hp(cars.find_id("1").unwrap()), 150);
    assert_eq!(hp(cars.find_id("2").unwrap()), 650);
    assert_eq!(hp(cars.find_id("3").unwrap()), 250);
}

fn set_hp(cars: &mut VecPack, id: &str, value: u32) {
    let car = cars.find_id_mut(id).unwrap();
    let data = with_field(car, "hp", Value::from(value));
    car.update(data).unwrap();
}

#[test]
fn test_vecpack_find_id_mut_update() {
    let mut cars = create_dummy_vecpack("data/vecpack_test_find_id_mut_update");
    set_hp(&mut cars, "1", 1);
    set_hp(&mut cars, "2", 11);
    set_hp(&mut cars, "3", 111);

    assert_eq!(hp(cars.find_id("1").unwrap()), 1);
    assert_eq!(hp(cars.find_id("2").unwrap()), 11);
    assert_eq!(hp(cars.find_id("3").unwrap()), 111);
}

#[test]
fn test_vecpack_find_id_mut_as_mut() {
    let mut cars = create_dummy_vecpack("data/vecpack_test_find_id_mut_as_mut");
    set_hp(&mut cars, "1", 1);
    set_hp(&mut cars, "2", 11);
    set_hp(&mut cars, "3", 111);
    assert_eq!(cars.find_id_mut("4").is_ok(), false);
    assert_eq!(cars.find_id_mut("100").is_ok(), false);

    assert_eq!(hp(cars.find_id("1").unwrap()), 1);
    assert_eq!(hp(cars.find_id("2").unwrap()), 11);
    assert_eq!(hp(cars.find_id("3").unwrap()), 111);
}

fn enc_robot(id: u32, name: &str, can_speak: bool) -> Vec<u8> {
    let mut m = serde_json::Map::new();
    m.insert("id".to_string(), Value::from(id));
    m.insert("name".to_string(), Value::String(name.to_string()));
    m.insert("can_speak".to_string(), Value::Bool(can_speak));
    serde_json::to_vec(&Value::Object(m)).unwrap()
}

fn insert_robot(robots: &mut VecPack, id: u32, name: &str, can_speak: bool) {
    robots.insert(&id.to_string(), enc_robot(id, name, can_speak)).unwrap();
}

#[test]
fn test_id_str() {
    let mut robots = VecPack::load_or_init("data/vecpack_test_id_str", &Vec::new()).unwrap();
    insert_robot(&mut robots, 1, "robot_a", true);
    insert_robot(&mut robots, 2, "robot_b", false);
    insert_robot(&mut robots, 3, "robot_c", false);

    assert_eq!(robots.find_id(&2u32.to_string()).is_ok(), true);
}

#[test]
fn test_mut_ref() {
    let mut robots = VecPack::load_or_init("data/vecpack_test_mut_red", &Vec::new()).unwrap();
    insert_robot(&mut robots, 1, "Mini Robot", true);

    let robot = robots.get_mut(0).unwrap();
    let data = with_field(robot, "name", Value::String("Mini Roboto".to_string()));
    robot.update(data).unwrap();
    assert_eq!(field(robots.get(0).unwrap(), "name").as_str().unwrap(), "Mini Roboto");
}
