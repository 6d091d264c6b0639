use healer_fuzzer::corpus::Corpus;
use healer_fuzzer::codec::{decode_progs, encode_progs};
use healer_fuzzer::prog::{Call, Prog};

fn prog(gid: u64, fids: &[u64]) -> Prog {
    Prog::new(gid, fids.iter().map(|f| Call { fid: *f }).collect())
}

#[test]
fn corpus_insert_deduplicates() {
    let mut c = Corpus::new();
    assert!(c.is_empty());
    assert!(c.insert(prog(1, &[1, 2])));
    assert!(!c.insert(prog(1, &[1, 2])));
    assert!(c.insert(prog(1, &[1, 2, 3])));
    assert!(c.insert(prog(2, &[1, 2])));
    assert_eq!(c.len(), 3);
    assert!(!c.is_empty());
}

#[test]
fn corpus_dump_load_round_trips_contents() {
    let mut c = Corpus::new();
    c.insert(prog(1, &[10, 20, 30]));
    c.insert(prog(2, &[]));
    c.insert(prog(3, &[7]));
    let bytes = c.dump();
    let c2 = Corpus::load(&bytes).unwrap();
    assert_eq!(c2.len(), 3);
    // Everything that was dumped is back: re-inserting is a no-op.
    let mut c2 = c2;
    assert!(!c2.insert(prog(1, &[10, 20, 30])));
    assert!(!c2.insert(prog(2, &[])));
    assert!(!c2.insert(prog(3, &[7])));
    assert_eq!(c2.len(), 3);
}

#[test]
fn empty_corpus_round_trips() {
    let c = Corpus::new();
    let bytes = c.dump();
    assert_eq!(bytes.len(), 8);
    let c2 = Corpus::load(&bytes).unwrap();
    assert_eq!(c2.len(), 0);
}

#[test]
fn corpus_load_rejects_truncated_input() {
    let mut c = Corpus::new();
    c.insert(prog(1, &[10, 20]));
    let mut bytes = c.dump();
    bytes.pop();
    assert!(Corpus::load(&bytes).is_err());
    assert!(Corpus::load(&[]).is_err());
    assert!(Corpus::load(&[1, 2, 3]).is_err());
}

#[test]
fn corpus_load_rejects_trailing_bytes() {
    let mut c = Corpus::new();
    c.insert(prog(1, &[10]));
    let mut bytes = c.dump();
    bytes.push(0);
    assert!(Corpus::load(&bytes).is_err());
}

#[test]
fn progs_encode_decode_round_trips_in_order() {
    let ps = vec![prog(9, &[1, 2]), prog(9, &[1, 2]), prog(4, &[])];
    let bytes = encode_progs(&ps);
    let back = decode_progs(&bytes).unwrap();
    assert_eq!(back.len(), 3);
    assert!(back[0].equals(&ps[0]));
    assert!(back[1].equals(&ps[1]));
    assert!(back[2].equals(&ps[2]));
}

#[test]
fn sub_prog_is_prefix_and_remove_call_deletes() {
    let p = prog(1, &[5, 6, 7]);
    let s = p.sub_prog(1);
    assert_eq!(s.len(), 2);
    assert_eq!(s.calls[0].fid, 5);
    assert_eq!(s.calls[1].fid, 6);
    let mut q = p.clone();
    q.remove_call(0);
    assert_eq!(q.len(), 2);
    assert_eq!(q.calls[0].fid, 6);
    assert_eq!(q.calls[1].fid, 7);
    assert_eq!(p.last_call().fid, 7);
}
