use dust::download::Transfer;

#[test]
fn a_fresh_transfer_is_empty() {
    let transfer = Transfer::begin();
    assert_eq!(transfer.written(), 0);
}

#[test]
fn chunks_accumulate_in_order() {
    let mut transfer = Transfer::begin();
    transfer.write_chunk(&[1, 2, 3]);
    transfer.write_chunk(&[4, 5]);
    assert_eq!(transfer.written(), 5);
    transfer.finish();
    assert_eq!(transfer.written(), 5);
}

#[test]
fn write_chunks_counts_every_byte() {
    let mut transfer = Transfer::begin();
    let chunks = vec![vec![0u8; 4], vec![], vec![9u8; 2]];
    transfer.write_chunks(&chunks);
    assert_eq!(transfer.written(), 6);
}

#[test]
fn restarting_discards_the_prior_transfer() {
    let mut transfer = Transfer::begin();
    transfer.write_chunk(&[7u8; 10]);
    transfer.finish();
    let again = Transfer::begin();
    assert_eq!(again.written(), 0);
}
