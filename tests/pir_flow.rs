use dpf::prg::keyed_hash;
use dpf::{check_status, generate_keys, Client, Database, DpfStatus, Error, Server};

fn sample_database() -> Result<Database, Error> {
    let mut db = Database::new(10, 8)?;
    db.set_element(0, &[1, 2, 3, 4, 5, 6, 7, 8])?;
    db.set_element(1, &[8, 7, 6, 5, 4, 3, 2, 1])?;
    Ok(db)
}

fn retrieve(db: &mut Database, index: i32) -> Result<Vec<u8>, Error> {
    let mut client = Client::new(10, 8)?;
    let mut server = Server::new(db)?;
    let request = client.create_request(index)?;
    let partner = client.partner_request(&request)?;
    let response = server.process_request(&request)?;
    let partner_response = server.process_request(&partner)?;
    client.get_result(&request, &response, &partner_response)
}

#[test]
fn test_pir_flow() -> Result<(), Error> {
    let mut db = Database::new(10, 8)?;
    db.set_element(0, &[1, 2, 3, 4, 5, 6, 7, 8])?;
    db.set_element(1, &[8, 7, 6, 5, 4, 3, 2, 1])?;
    let mut client = Client::new(10, 8)?;
    let mut server = Server::new(&mut db)?;
    let request = client.create_request(1)?;
    let partner = client.partner_request(&request)?;
    let response = server.process_request(&request)?;
    let partner_response = server.process_request(&partner)?;
    let result = client.get_result(&request, &response, &partner_response)?;
    assert_eq!(result, vec![8, 7, 6, 5, 4, 3, 2, 1]);
    Ok(())
}

#[test]
fn retrieves_first_record() {
    let mut db = sample_database().unwrap();
    assert_eq!(retrieve(&mut db, 0).unwrap(), vec![1, 2, 3, 4, 5, 6, 7, 8]);
}

#[test]
fn retrieves_unset_record_as_zeros() {
    let mut db = sample_database().unwrap();
    assert_eq!(retrieve(&mut db, 5).unwrap(), vec![0u8; 8]);
}

#[test]
fn retrieves_every_record() {
    let mut db = Database::new(10, 8).unwrap();
    for i in 0..10 {
        let rec: Vec<u8> = (0..8).map(|j| (i * 16 + j + 1) as u8).collect();
        db.set_element(i, &rec).unwrap();
    }
    for i in 0..10 {
        let expected: Vec<u8> = (0..8).map(|j| (i * 16 + j + 1) as u8).collect();
        assert_eq!(retrieve(&mut db, i).unwrap(), expected);
    }
}

#[test]
fn request_index_out_of_range() {
    let mut client = Client::new(10, 8).unwrap();
    assert!(matches!(client.create_request(10), Err(Error::InvalidArgument)));
    assert!(matches!(client.create_request(-1), Err(Error::InvalidArgument)));
}

#[test]
fn database_shape_must_be_positive() {
    assert!(matches!(Database::new(0, 8), Err(Error::InvalidArgument)));
    assert!(matches!(Database::new(8, 0), Err(Error::InvalidArgument)));
    assert!(matches!(Database::new(-3, 8), Err(Error::InvalidArgument)));
    assert!(matches!(Client::new(0, 8), Err(Error::InvalidArgument)));
}

#[test]
fn set_element_rejects_bad_input() {
    let mut db = Database::new(4, 3).unwrap();
    assert!(matches!(db.set_element(4, &[1, 2, 3]), Err(Error::InvalidArgument)));
    assert!(matches!(db.set_element(-1, &[1, 2, 3]), Err(Error::InvalidArgument)));
    assert!(matches!(db.set_element(0, &[1, 2]), Err(Error::InvalidArgument)));
    assert!(db.set_element(3, &[1, 2, 3]).is_ok());
}

#[test]
fn request_is_single_use() {
    let mut db = sample_database().unwrap();
    let mut client = Client::new(10, 8).unwrap();
    let mut server = Server::new(&mut db).unwrap();
    let request = client.create_request(0).unwrap();
    let partner = client.partner_request(&request).unwrap();
    let response = server.process_request(&request).unwrap();
    let partner_response = server.process_request(&partner).unwrap();
    assert_eq!(client.get_result(&request, &response, &partner_response).unwrap(), vec![1, 2, 3, 4, 5, 6, 7, 8]);
    assert!(matches!(client.get_result(&request, &response, &partner_response), Err(Error::Internal)));
    assert!(matches!(client.partner_request(&request), Err(Error::Internal)));
}

#[test]
fn foreign_request_is_rejected() {
    let mut db = sample_database().unwrap();
    let mut issuer = Client::new(10, 8).unwrap();
    let mut other = Client::new(10, 8).unwrap();
    let mut server = Server::new(&mut db).unwrap();
    let request = issuer.create_request(1).unwrap();
    let partner = issuer.partner_request(&request).unwrap();
    let response = server.process_request(&request).unwrap();
    let partner_response = server.process_request(&partner).unwrap();
    assert!(matches!(other.partner_request(&request), Err(Error::Internal)));
    assert!(matches!(other.get_result(&request, &response, &partner_response), Err(Error::Internal)));
}

#[test]
fn mismatched_response_is_rejected() {
    let mut db = sample_database().unwrap();
    let mut client = Client::new(10, 8).unwrap();
    let mut server = Server::new(&mut db).unwrap();
    let first = client.create_request(0).unwrap();
    let second = client.create_request(1).unwrap();
    let partner = client.partner_request(&second).unwrap();
    let response = server.process_request(&second).unwrap();
    let partner_response = server.process_request(&partner).unwrap();
    assert!(matches!(client.get_result(&first, &response, &partner_response), Err(Error::InvalidArgument)));
    assert!(matches!(client.get_result(&second, &response, &response), Err(Error::InvalidArgument)));
    assert!(matches!(client.get_result(&second, &partner_response, &response), Err(Error::InvalidArgument)));
    assert_eq!(client.get_result(&second, &response, &partner_response).unwrap(), vec![8, 7, 6, 5, 4, 3, 2, 1]);
}

#[test]
fn server_rejects_wrong_shape() {
    let mut db = sample_database().unwrap();
    let mut server = Server::new(&mut db).unwrap();
    let mut client = Client::new(12, 8).unwrap();
    let request = client.create_request(11).unwrap();
    assert!(matches!(server.process_request(&request), Err(Error::InvalidArgument)));
}

#[test]
fn key_pair_shares_point_function() {
    let payload: Vec<u8> = vec![0x5a, 0x00, 0xff, 0x13];
    for &n in &[1u64, 2, 8, 37] {
        for alpha in 0..n {
            let seeds = (0x0123_4567_89ab_cdef_u128 * (alpha as u128 + 1), 0xfedc_ba98_7654_3210_u128 + n as u128);
            let (k0, k1) = generate_keys(n, alpha, &payload, 4, seeds.0, seeds.1).unwrap();
            for x in 0..n {
                let a = k0.evaluate(x).unwrap();
                let b = k1.evaluate(x).unwrap();
                let combined: Vec<u8> = a.iter().zip(b.iter()).map(|(p, q)| p ^ q).collect();
                if x == alpha {
                    assert_eq!(combined, payload);
                } else {
                    assert_eq!(combined, vec![0u8; 4]);
                }
            }
        }
    }
}

#[test]
fn key_generation_rejects_bad_input() {
    let payload = vec![1u8, 2, 3];
    assert!(matches!(generate_keys(8, 8, &payload, 3, 1, 2), Err(Error::InvalidArgument)));
    assert!(matches!(generate_keys(8, 2, &payload, 4, 1, 2), Err(Error::InvalidArgument)));
    assert!(matches!(generate_keys(0, 0, &payload, 3, 1, 2), Err(Error::InvalidArgument)));
}

#[test]
fn evaluation_is_repeatable() {
    let payload = vec![9u8; 6];
    let (k0, k1) = generate_keys(37, 20, &payload, 6, 77, 99).unwrap();
    for x in 0..37 {
        assert_eq!(k0.evaluate(x).unwrap(), k0.evaluate(x).unwrap());
        assert_eq!(k1.evaluate(x).unwrap(), k1.evaluate(x).unwrap());
    }
}

#[test]
fn evaluation_rejects_index_out_of_domain() {
    let payload = vec![9u8; 2];
    let (k0, _) = generate_keys(5, 1, &payload, 2, 3, 4).unwrap();
    assert!(matches!(k0.evaluate(5), Err(Error::InvalidArgument)));
}

#[test]
fn single_key_outputs_do_not_single_out_the_index() {
    let payload = vec![0xffu8; 8];
    let (_, k1) = generate_keys(8, 3, &payload, 8, 11, 12).unwrap();
    let mut nonzero = 0;
    for x in 0..8 {
        if k1.evaluate(x).unwrap().iter().any(|&v| v != 0) {
            nonzero += 1;
        }
    }
    assert_eq!(nonzero, 8);
}

#[test]
fn evaluator_key_bits_look_alike_across_indices() {
    let trials = 200;
    let mut ones_low = 0u32;
    let mut ones_high = 0u32;
    let mut client = Client::new(64, 4).unwrap();
    for _ in 0..trials {
        let r0 = client.create_request(0).unwrap();
        let r1 = client.create_request(63).unwrap();
        ones_low += r0.key.levels.iter().map(|c| c.seed.count_ones()).sum::<u32>();
        ones_high += r1.key.levels.iter().map(|c| c.seed.count_ones()).sum::<u32>();
    }
    let total = (trials * 6 * 128) as f64;
    let f0 = ones_low as f64 / total;
    let f1 = ones_high as f64 / total;
    assert!((f0 - 0.5).abs() < 0.02);
    assert!((f1 - 0.5).abs() < 0.02);
    assert!((f0 - f1).abs() < 0.02);
}

#[test]
fn request_with_fixed_seeds_is_reproducible() {
    let mut a = Client::new(10, 8).unwrap();
    let mut b = Client::new(10, 8).unwrap();
    let ra = a.create_request_with_seeds(4, 5, 6).unwrap();
    let rb = b.create_request_with_seeds(4, 5, 6).unwrap();
    assert_eq!(ra.key.seed, rb.key.seed);
    assert_eq!(ra.key.output_correction, rb.key.output_correction);
    assert_eq!(ra.key.levels.len(), 4);
    assert_eq!(ra.key.seed, 6);
    assert!(!ra.partner);
    let pa = a.partner_request(&ra).unwrap();
    assert!(pa.partner);
    assert_eq!(pa.id, ra.id);
    assert_eq!(pa.key.seed, 5);
    assert_eq!(pa.key.output_correction, ra.key.output_correction);
    for x in 0..10u64 {
        let e0 = pa.key.evaluate(x).unwrap();
        let e1 = ra.key.evaluate(x).unwrap();
        let combined: Vec<u8> = e0.iter().zip(e1.iter()).map(|(p, q)| p ^ q).collect();
        if x == 4 {
            assert_eq!(combined, vec![0xffu8; 8]);
        } else {
            assert_eq!(combined, vec![0u8; 8]);
        }
    }
}

#[test]
fn status_codes_map_to_errors() {
    assert!(check_status(DpfStatus::Success).is_ok());
    assert!(matches!(check_status(DpfStatus::InvalidArgument), Err(Error::InvalidArgument)));
    assert!(matches!(check_status(DpfStatus::Internal), Err(Error::Internal)));
    assert!(matches!(check_status(DpfStatus::OutOfMemory), Err(Error::OutOfMemory)));
}

#[test]
fn two_servers_answer_one_query_each() {
    let mut db = sample_database().unwrap();
    let mut client = Client::new(10, 8).unwrap();
    let mut first = Server::new(&mut db).unwrap();
    let mut second = Server::new(&mut db).unwrap();
    let request = client.create_request(1).unwrap();
    let partner = client.partner_request(&request).unwrap();
    let response = first.process_request(&request).unwrap();
    let partner_response = second.process_request(&partner).unwrap();
    assert_ne!(response.share, vec![8, 7, 6, 5, 4, 3, 2, 1]);
    assert_eq!(client.get_result(&request, &response, &partner_response).unwrap(), vec![8, 7, 6, 5, 4, 3, 2, 1]);
}

#[test]
fn keyed_hash_matches_reference_vector() {
    let key: u128 = 0x0f0e0d0c0b0a09080706050403020100;
    let message: u64 = 0x0706050403020100;
    assert_eq!(keyed_hash(key, message), 0x93f5f5799a932462);
}
