use szs_utils::error::Error;
use szs_utils::kmp::sections::{CpType, Poti, Shape, Stgi};
use szs_utils::kmp::{Header, Kmp, Section};
use szs_utils::szs::parse_bytes;

const NAMES: [&str; 15] = [
    "KTPT", "ENPT", "ENPH", "ITPT", "ITPH", "CKPT", "CKPH", "GOBJ", "POTI", "AREA", "CAME", "JGPT", "CNPT",
    "MSPT", "STGI",
];

/// A `.kmp` file with every section; all are empty but STGI, which holds one
/// entry with `laps` laps, and POTI, which holds one route of two points. The
/// sections are stored in the order `order` gives.
fn sample_kmp(laps: u8, order: &[usize; 15]) -> Vec<u8> {
    let header_length: usize = 0x10 + 15 * 4;
    let mut body: Vec<u8> = Vec::new();
    let mut offsets = [0u32; 15];
    for &k in order.iter() {
        offsets[k] = body.len() as u32;
        body.extend_from_slice(NAMES[k].as_bytes());
        match NAMES[k] {
            "STGI" => {
                body.extend_from_slice(&1u16.to_be_bytes());
                body.extend_from_slice(&0u16.to_be_bytes());
                body.extend_from_slice(&[laps, 0, 1, 1, 0xE6, 0xE6, 0xE6, 0x00, 0x4B, 0x00, 0x00, 0x00]);
            }
            "POTI" => {
                body.extend_from_slice(&1u16.to_be_bytes());
                body.extend_from_slice(&2u16.to_be_bytes());
                body.extend_from_slice(&2u16.to_be_bytes());
                body.extend_from_slice(&[7, 9]);
                for p in 0..2u32 {
                    body.extend_from_slice(&p.to_be_bytes());
                    body.extend_from_slice(&(p + 10).to_be_bytes());
                    body.extend_from_slice(&(p + 20).to_be_bytes());
                    body.extend_from_slice(&(p as u16 + 1).to_be_bytes());
                    body.extend_from_slice(&(p as u16 + 2).to_be_bytes());
                }
            }
            _ => {
                body.extend_from_slice(&[0, 0, 0, 0]);
            }
        }
    }
    let mut out = b"RKMD".to_vec();
    out.extend_from_slice(&((header_length + body.len()) as u32).to_be_bytes());
    out.extend_from_slice(&15u16.to_be_bytes());
    out.extend_from_slice(&(header_length as u16).to_be_bytes());
    out.extend_from_slice(&0x9d8u32.to_be_bytes());
    for o in offsets.iter() {
        out.extend_from_slice(&o.to_be_bytes());
    }
    out.extend_from_slice(&body);
    out
}

fn in_order() -> [usize; 15] {
    [0, 1, 2, 3, 4, 5, 6, 7, 8, 9, 10, 11, 12, 13, 14]
}

/// A Yaz0 stream of literal bytes.
fn yaz0_literal(plain: &[u8]) -> Vec<u8> {
    let mut out = b"Yaz0".to_vec();
    out.extend_from_slice(&(plain.len() as u32).to_be_bytes());
    out.extend_from_slice(&[0; 8]);
    for chunk in plain.chunks(8) {
        out.push(0xFF);
        out.extend_from_slice(chunk);
    }
    out
}

/// An archive whose root holds the one file `course.kmp`.
fn archive_with_kmp(kmp: &[u8]) -> Vec<u8> {
    let mut out = Vec::new();
    out.extend_from_slice(&0x55AA_382Du32.to_be_bytes());
    out.extend_from_slice(&0x20u32.to_be_bytes());
    out.extend_from_slice(&[0; 0x18]);
    let pool = b"\0course.kmp\0";
    let data_at = 0x20 + 2 * 12 + pool.len();
    out.extend_from_slice(&0x0100_0000u32.to_be_bytes());
    out.extend_from_slice(&0u32.to_be_bytes());
    out.extend_from_slice(&2u32.to_be_bytes());
    out.extend_from_slice(&1u32.to_be_bytes());
    out.extend_from_slice(&(data_at as u32).to_be_bytes());
    out.extend_from_slice(&(kmp.len() as u32).to_be_bytes());
    out.extend_from_slice(pool);
    out.extend_from_slice(kmp);
    out
}

#[test]
fn kmp() {
    let szs = parse_bytes(&yaz0_literal(&archive_with_kmp(&sample_kmp(3, &in_order())))).unwrap();
    let file = Kmp::parse_from_data(&szs.root.find("course.kmp").unwrap().data).unwrap();
    for entry in file.stgi.entries {
        println!("Lap Count: {}", entry.lap_count)
    }
}

#[test]
fn kmp_sections_are_read() {
    let data = sample_kmp(5, &in_order());
    let kmp = Kmp::parse_from_data(&data).unwrap();
    assert_eq!(kmp.header.magic, "RKMD");
    assert_eq!(kmp.header.section_count, 15);
    assert_eq!(kmp.header.header_length, 0x4C);
    assert_eq!(kmp.header.version, 0x9d8);
    assert_eq!(kmp.header.file_length as usize, data.len());
    assert_eq!(kmp.stgi.name, "STGI");
    assert_eq!(kmp.stgi.entry_count, 1);
    let stgi: &Stgi = &kmp.stgi.entries[0];
    assert_eq!(stgi.lap_count, 5);
    assert_eq!(stgi.pole_pos, 0);
    assert_eq!(stgi.driver_distance, 1);
    assert_eq!(stgi.flare_color, [0xE6, 0xE6, 0xE6, 0x00]);
    assert_eq!(stgi.flare_transparency, 0x4B);
    assert_eq!(kmp.ktpt.entries.len(), 0);
    assert_eq!(kmp.ckpt.name, "CKPT");
    assert_eq!(kmp.poti.entry_count, 1);
    assert_eq!(kmp.poti.additional, 2);
    let route: &Poti = &kmp.poti.entries[0];
    assert_eq!(route.num_points, 2);
    assert_eq!(route.setting_1, 7);
    assert_eq!(route.setting_2, 9);
    assert_eq!(route.points[1].position.x, 1);
    assert_eq!(route.points[1].position.y, 11);
    assert_eq!(route.points[1].position.z, 21);
    assert_eq!(route.points[1].setting_1, 2);
    assert_eq!(route.points[1].setting_2, 3);
}

#[test]
fn kmp_sections_may_come_in_any_order() {
    let mut order = in_order();
    order.reverse();
    let kmp = Kmp::parse_from_data(&sample_kmp(2, &order)).unwrap();
    assert_eq!(kmp.stgi.entries[0].lap_count, 2);
    assert_eq!(kmp.poti.entries[0].points.len(), 2);
}

#[test]
fn kmp_offset_table_decides_which_sections_are_read() {
    // The table lists STGI twice and KTPT not at all.
    let mut data = sample_kmp(3, &in_order());
    let header_length = 0x4C;
    let stgi_off = u32::from_be_bytes([data[0x10 + 14 * 4], data[0x11 + 14 * 4], data[0x12 + 14 * 4], data[0x13 + 14 * 4]]);
    let extra_off = (data.len() - header_length) as u32;
    data.extend_from_slice(b"STGI");
    data.extend_from_slice(&[0, 1, 0, 0, 7, 0, 0, 0, 0, 0, 0, 0, 0, 0, 0, 0]);
    data[0x10..0x14].copy_from_slice(&stgi_off.to_be_bytes());
    data[0x10 + 14 * 4..0x14 + 14 * 4].copy_from_slice(&extra_off.to_be_bytes());
    assert_eq!(Kmp::parse_from_data(&data).err(), Some(Error::MissingSection(u32::from_be_bytes(*b"KTPT"))));
    // With KTPT listed again, STGI comes from the copy that the table lists.
    data[0x10..0x14].copy_from_slice(&0u32.to_be_bytes());
    let kmp = Kmp::parse_from_data(&data).unwrap();
    assert_eq!(kmp.stgi.entries[0].lap_count, 7);
}

#[test]
fn kmp_errors() {
    assert_eq!(Kmp::parse_from_data(b"RKMD").err(), Some(Error::OutOfBounds));
    let mut data = sample_kmp(3, &in_order());
    data[0x4C..0x50].copy_from_slice(b"XXXX");
    assert_eq!(Kmp::parse_from_data(&data).err(), Some(Error::UnknownSection(0x5858_5858)));
    let mut data = sample_kmp(3, &in_order());
    data[0x4C] = 0xFF;
    assert_eq!(Kmp::parse_from_data(&data).err(), Some(Error::InvalidUtf8));
    let data = sample_kmp(3, &in_order());
    assert_eq!(Kmp::parse_from_data(&data[..data.len() - 1]).err(), Some(Error::OutOfBounds));
}

#[test]
fn kmp_section_past_the_end_is_refused_before_parsing() {
    let mut data = sample_kmp(3, &in_order());
    data[0x10..0x14].copy_from_slice(&0x10000u32.to_be_bytes());
    assert!(Kmp::try_parse_from_data(&data).is_none());
    let data = sample_kmp(3, &in_order());
    assert!(matches!(Kmp::try_parse_from_data(&data), Some(Ok(_))));
    assert!(matches!(Kmp::try_parse_from_data(b"RK"), Some(Err(Error::OutOfBounds))));
}

#[test]
fn kmp_header_and_sections_alone() {
    let data = sample_kmp(4, &in_order());
    let header = Header::parse(&data).unwrap();
    assert_eq!(header.magic, "RKMD");
    let stgi_at = 0x4C + u32::from_be_bytes([data[0x48], data[0x49], data[0x4A], data[0x4B]]) as usize;
    let section = Section::<Stgi>::parse(&data, stgi_at).unwrap();
    assert_eq!(section.entries[0].lap_count, 4);
    let poti_at = 0x4C + u32::from_be_bytes([data[0x30], data[0x31], data[0x32], data[0x33]]) as usize;
    let routes: Section<Poti> = Section::<Poti>::parse(&data, poti_at).unwrap();
    assert_eq!(routes.entries[0].points.len(), 2);
    let (route, size) = Poti::parse(&data, poti_at + 8).unwrap();
    assert_eq!(route.num_points, 2);
    assert_eq!(size, 4 + 2 * 16);
    assert_eq!(Poti::parse(&data, data.len() - 2).err(), Some(Error::OutOfBounds));
}

#[test]
fn checkpoint_types_and_shapes() {
    assert_eq!(CpType::from_i8(0), CpType::LapCounter);
    assert_eq!(CpType::from_i8(-1), CpType::Checkpoint);
    assert_eq!(CpType::from_i8(5), CpType::KeyCheckpoint);
    assert_eq!(CpType::from_i8(-2), CpType::KeyCheckpoint);
    assert_eq!(CpType::LapCounter.to_string(), "Lap Counter");
    assert_eq!(CpType::KeyCheckpoint.to_string(), "Key Checkpoint");
    assert_eq!(CpType::Checkpoint.to_string(), "Checkpoint");
    assert_eq!(Shape::from_u8(0), Shape::Box);
    assert_eq!(Shape::from_u8(1), Shape::Cylinder);
    assert_eq!(Shape::from_u8(9), Shape::Unknown(9));
}

#[test]
fn kmp_exchanging_table_entries_reads_the_same() {
    let data = sample_kmp(6, &in_order());
    let mut swapped = data.clone();
    let (a, b) = (0x10 + 4 * 0, 0x10 + 4 * 14);
    let first: [u8; 4] = data[a..a + 4].try_into().unwrap();
    let last: [u8; 4] = data[b..b + 4].try_into().unwrap();
    swapped[a..a + 4].copy_from_slice(&last);
    swapped[b..b + 4].copy_from_slice(&first);
    assert_ne!(data, swapped);
    let one = Kmp::parse_from_data(&data).unwrap();
    let two = Kmp::parse_from_data(&swapped).unwrap();
    assert_eq!(one.stgi.entries[0].lap_count, two.stgi.entries[0].lap_count);
    assert_eq!(one.stgi.name, two.stgi.name);
    assert_eq!(one.ktpt.name, two.ktpt.name);
    assert_eq!(one.poti.entries[0].points, two.poti.entries[0].points);
    assert_eq!(two.stgi.entries[0].lap_count, 6);
}
