//! End-to-end protocol runs: the two endpoints exchange their messages as
//! plain values in wire order.
use popsicle::error::Error;
use popsicle::psz::{Receiver, Sender};

fn run_psi(xs: &Vec<Vec<u8>>, ys: &Vec<Vec<u8>>) -> Result<Vec<Vec<u8>>, Error> {
    let mut snd = Sender::init();
    let mut rcv = Receiver::init();
    // Wire order: commitment, peer nonce, opening, (m, s), PRF outputs,
    // record streams.
    let commitment = snd.commitment();
    let peer_nonce = rcv.nonce;
    let opening = snd.opening();
    let params = rcv.prepare(ys, commitment, opening)?;
    let streams = snd.send(xs, peer_nonce, &params)?;
    let queries = rcv.queries();
    let outputs = snd.oprf_outputs(&queries)?;
    rcv.receive(&outputs, &streams)
}

fn padded16(s: &str) -> Vec<u8> {
    let mut v = s.as_bytes().to_vec();
    while v.len() < 16 {
        v.push(0u8);
    }
    v
}

fn rand_bytes16() -> Vec<u8> {
    let mut v = Vec::with_capacity(16);
    for _ in 0..16 {
        v.push(rand::random::<u8>());
    }
    v
}

fn rand_vec_vec(n: usize) -> Vec<Vec<u8>> {
    let mut out = Vec::with_capacity(n);
    while out.len() < n {
        let c = rand_bytes16();
        if !out.contains(&c) {
            out.push(c);
        }
    }
    out
}

fn as_sorted(mut v: Vec<Vec<u8>>) -> Vec<Vec<u8>> {
    v.sort();
    v
}

#[test]
fn scenario_small_equal_sets() {
    let xs: Vec<Vec<u8>> = vec![padded16("a"), padded16("b"), padded16("c"), padded16("d")];
    let ys = xs.clone();
    let out = run_psi(&xs, &ys).unwrap();
    assert_eq!(as_sorted(out), as_sorted(xs));
}

#[test]
fn scenario_partial_overlap() {
    let xs: Vec<Vec<u8>> = vec![
        b"alpha".to_vec(),
        b"beta".to_vec(),
        b"gamma".to_vec(),
    ];
    let ys: Vec<Vec<u8>> = vec![b"beta".to_vec(), b"delta".to_vec()];
    let out = run_psi(&xs, &ys).unwrap();
    assert_eq!(out, vec![b"beta".to_vec()]);
}

#[test]
fn scenario_large_equal_sets() {
    let xs = rand_vec_vec(1024);
    let ys = xs.clone();
    let out = run_psi(&xs, &ys).unwrap();
    assert_eq!(out.len(), 1024);
    assert_eq!(as_sorted(out), as_sorted(xs));
}

#[test]
fn scenario_ten_shared() {
    let xs = rand_vec_vec(2048);
    let mut ys: Vec<Vec<u8>> = xs[1024..2048].to_vec();
    let xs: Vec<Vec<u8>> = xs[0..1024].to_vec();
    for i in 0..10 {
        ys[i * 100] = xs[i * 50].clone();
    }
    let shared: Vec<Vec<u8>> = (0..10).map(|i| xs[i * 50].clone()).collect();
    let out = run_psi(&xs, &ys).unwrap();
    assert_eq!(out.len(), 10);
    assert_eq!(as_sorted(out), as_sorted(shared));
}

#[test]
fn scenario_sixteen_tokens() {
    let xs = rand_vec_vec(16);
    let ys = xs.clone();
    let out = run_psi(&xs, &ys).unwrap();
    assert_eq!(out.len(), 16);
    assert_eq!(as_sorted(out), as_sorted(xs));
}

#[test]
fn scenario_truncated_stream_is_io_error() {
    let xs: Vec<Vec<u8>> = vec![padded16("a"), padded16("b"), padded16("c"), padded16("d")];
    let ys = xs.clone();
    let mut snd = Sender::init();
    let mut rcv = Receiver::init();
    let commitment = snd.commitment();
    let peer_nonce = rcv.nonce;
    let opening = snd.opening();
    let params = rcv.prepare(&ys, commitment, opening).unwrap();
    let mut streams = snd.send(&xs, peer_nonce, &params).unwrap();
    let queries = rcv.queries();
    let outputs = snd.oprf_outputs(&queries).unwrap();
    // The transport drops mid-way through the bin streams, cutting a record.
    streams.truncate(streams.len() / 2 + 1);
    let r = rcv.receive(&outputs, &streams);
    assert_eq!(r, Err(Error::Io));
}

#[test]
fn disjoint_sets_give_empty_intersection() {
    let all = rand_vec_vec(64);
    let xs: Vec<Vec<u8>> = all[0..32].to_vec();
    let ys: Vec<Vec<u8>> = all[32..64].to_vec();
    let out = run_psi(&xs, &ys).unwrap();
    assert!(out.is_empty());
}

#[test]
fn test_psi() {
    let sender_inputs = rand_vec_vec(1 << 10);
    let receiver_inputs = sender_inputs.clone();
    let intersection = run_psi(&sender_inputs, &receiver_inputs).unwrap();
    assert_eq!(intersection.len(), 1 << 10);
}

#[test]
fn coin_toss_mismatch_is_detected() {
    let ys: Vec<Vec<u8>> = vec![padded16("a"), padded16("b")];
    let snd = Sender::init();
    let mut rcv = Receiver::init();
    let mut commitment = snd.commitment();
    commitment.lo ^= 1;
    let r = rcv.prepare(&ys, commitment, snd.opening());
    assert_eq!(r.err(), Some(Error::CoinTossMismatch));
}

#[test]
fn empty_input_set_is_rejected() {
    let xs: Vec<Vec<u8>> = vec![padded16("a")];
    let ys: Vec<Vec<u8>> = Vec::new();
    let r = run_psi(&xs, &ys);
    assert_eq!(r.err(), Some(Error::BadInputSize));
    // An empty sender set is rejected too.
    let mut snd = Sender::init();
    let mut rcv = Receiver::init();
    let params = rcv.prepare(&xs, snd.commitment(), snd.opening()).unwrap();
    let r2 = snd.send(&Vec::new(), rcv.nonce, &params);
    assert_eq!(r2.err(), Some(Error::BadInputSize));
}

#[test]
fn malformed_params_message_is_io_error() {
    let xs: Vec<Vec<u8>> = vec![padded16("a"), padded16("b")];
    let mut snd = Sender::init();
    let short: Vec<u8> = vec![0u8; 7];
    let r = snd.send(&xs, popsicle::token::Token { lo: 1, hi: 2 }, &short);
    assert_eq!(r.err(), Some(Error::Io));
}

#[test]
fn wrong_output_count_is_oprf_failure() {
    let xs: Vec<Vec<u8>> = vec![padded16("a"), padded16("b")];
    let ys = xs.clone();
    let mut snd = Sender::init();
    let mut rcv = Receiver::init();
    let commitment = snd.commitment();
    let peer_nonce = rcv.nonce;
    let opening = snd.opening();
    let params = rcv.prepare(&ys, commitment, opening).unwrap();
    let streams = snd.send(&xs, peer_nonce, &params).unwrap();
    let mut outputs = snd.oprf_outputs(&rcv.queries()).unwrap();
    outputs.pop();
    let r = rcv.receive(&outputs, &streams);
    assert_eq!(r, Err(Error::OprfFailure));
}

#[test]
fn transcript_lengths_match_parameters() {
    // Receiver privacy: the sender's stream length is (3 + s) * n * sigma;
    // sender privacy: the receiver's one control message is 16 bytes.
    let xs: Vec<Vec<u8>> = (0..50u8).map(|b| vec![b; 16]).collect();
    let ys: Vec<Vec<u8>> = (100..150u8).map(|b| vec![b; 16]).collect();
    let mut snd = Sender::init();
    let mut rcv = Receiver::init();
    let params = rcv.prepare(&ys, snd.commitment(), snd.opening()).unwrap();
    assert_eq!(params.len(), 16);
    let streams = snd.send(&xs, rcv.nonce, &params).unwrap();
    // n = 50: sigma = ceil((2*ceil(log2 50) + 40)/8) = 7; s = 12.
    assert_eq!(streams.len(), (3 + 12) * 50 * 7);
}
