use pobox::borrow::{bitfield, bitfield_len, can_borrow, BitfieldState};
use pobox::disjoint::{Borrowed, Disjointness};
use pobox::runner::lock::{borrow_fields, borrow_whole, release_fields, release_whole, BorrowBuilder};

fn read(fields: usize, f: &[usize]) -> Disjointness {
    let mut d = Disjointness::new(fields);
    for &x in f {
        d.read(x);
    }
    d
}

fn write(fields: usize, f: &[usize]) -> Disjointness {
    let mut d = Disjointness::new(fields);
    for &x in f {
        d.write(x);
    }
    d
}

#[test]
fn two_reads_then_exclusive_waits_for_both() {
    let mut held = BitfieldState::new(2);
    let r0 = read(2, &[0]);
    let r1 = read(2, &[1]);
    let w = write(2, &[0, 1]);
    assert_eq!(held.try_borrow(&r0), Ok(()));
    assert_eq!(held.try_borrow(&r1), Ok(()));
    assert_eq!(held.try_borrow(&w), Err(Borrowed));
    held.unborrow(&r0);
    assert_eq!(held.try_borrow(&w), Err(Borrowed));
    held.unborrow(&r1);
    assert_eq!(held.try_borrow(&w), Ok(()));
}

#[test]
fn disjoint_exclusive_requests_coexist() {
    let mut held = BitfieldState::new(130);
    let a = write(130, &[0, 64]);
    let b = write(130, &[1, 129]);
    assert_eq!(held.try_borrow(&a), Ok(()));
    assert_eq!(held.try_borrow(&b), Ok(()));
}

#[test]
fn exclusive_overlap_refused_either_way() {
    let mut held = BitfieldState::new(3);
    let w = write(3, &[2]);
    let r = read(3, &[2]);
    assert_eq!(held.try_borrow(&w), Ok(()));
    assert_eq!(held.try_borrow(&r), Err(Borrowed));
    held.unborrow(&w);
    assert_eq!(held.try_borrow(&r), Ok(()));
    assert_eq!(held.try_borrow(&w), Err(Borrowed));
    let r2 = read(3, &[2]);
    assert_eq!(held.try_borrow(&r2), Ok(()));
}

#[test]
fn whole_state_request_takes_every_field() {
    let mut held = BitfieldState::new(70);
    let all = Disjointness::whole_state(70);
    assert_eq!(all.exclusive_mask(), &vec![u64::MAX, 0b111111]);
    assert_eq!(held.try_borrow(&all), Ok(()));
    assert_eq!(held.try_borrow(&read(70, &[69])), Err(Borrowed));
    assert!(!held.can_grant(&read(70, &[5])));
}

#[test]
fn bitfield_lengths() {
    assert_eq!(bitfield_len(0), 0);
    assert_eq!(bitfield_len(1), 1);
    assert_eq!(bitfield_len(64), 1);
    assert_eq!(bitfield_len(65), 2);
    assert_eq!(bitfield_len(128), 2);
    assert_eq!(bitfield(3), vec![0u64, 0, 0]);
}

#[test]
fn can_borrow_word_rules() {
    // held exclusive bit 1, held shared bit 0
    let he = vec![0b10u64];
    let hs = vec![0b01u64];
    assert!(can_borrow(&he, &hs, &vec![0], &vec![0b01]));
    assert!(!can_borrow(&he, &hs, &vec![0], &vec![0b10]));
    assert!(!can_borrow(&he, &hs, &vec![0b01], &vec![0]));
    assert!(can_borrow(&he, &hs, &vec![0b100], &vec![0]));
    assert!(!can_borrow(&vec![0, 1 << 63], &vec![0, 0], &vec![0, 0], &vec![0, 1 << 63]));
}

#[test]
fn tickets_release_what_they_took() {
    let mut held = BitfieldState::new(4);
    let req = BorrowBuilder::new(4).read(0).write(3).build();
    let t = match borrow_fields(&mut held, req) {
        Ok(t) => t,
        Err(_) => panic!("grant expected"),
    };
    assert!(borrow_whole(&mut held).is_err());
    release_fields(&mut held, t);
    let w = match borrow_whole(&mut held) {
        Ok(w) => w,
        Err(_) => panic!("grant expected"),
    };
    assert!(borrow_fields(&mut held, read(4, &[1])).is_err());
    release_whole(&mut held, w);
    assert!(borrow_fields(&mut held, read(4, &[1])).is_ok());
}

#[test]
fn releasing_a_shared_field_twice_is_harmless() {
    let mut held = BitfieldState::new(2);
    let r1 = read(2, &[0]);
    let r2 = read(2, &[0]);
    assert_eq!(held.try_borrow(&r1), Ok(()));
    assert_eq!(held.try_borrow(&r2), Ok(()));
    held.unborrow(&r1);
    held.unborrow(&r2);
    assert_eq!(held.try_borrow(&write(2, &[0, 1])), Ok(()));
}
