use xerus::bittorrent::assembly::Assembler;
use xerus::bittorrent::error::TorrentError;
use xerus::bittorrent::piece::PieceResult;

#[test]
fn pieces_in_any_order_rebuild_the_file() {
    let original: Vec<u8> = (0u8..23).collect();
    let mut a = Assembler::new(5, 23);
    assert_eq!(a.num_pieces, 5);
    for index in [4u32, 0, 2, 1, 3] {
        let start = (index * 5) as usize;
        let end = (start + 5).min(23);
        let r = PieceResult::new(index, (end - start) as u32, original[start..end].to_vec());
        assert_eq!(a.accept(r), Ok(true));
    }
    assert!(a.is_complete());
    assert_eq!(a.into_data(), original);
}

#[test]
fn duplicates_and_bad_results() {
    let mut a = Assembler::new(4, 6);
    assert_eq!(a.accept(PieceResult::new(0, 4, vec![1, 2, 3, 4])), Ok(true));
    assert_eq!(a.accept(PieceResult::new(0, 4, vec![9, 9, 9, 9])), Ok(false));
    assert_eq!(a.count, 1);
    assert!(!a.is_complete());
    assert_eq!(a.accept(PieceResult::new(1, 4, vec![5, 6, 7, 8])), Err(TorrentError::Protocol));
    assert_eq!(a.accept(PieceResult::new(2, 2, vec![5, 6])), Err(TorrentError::Protocol));
    assert_eq!(a.accept(PieceResult::new(1, 2, vec![5])), Err(TorrentError::Protocol));
    assert_eq!(a.accept(PieceResult::new(1, 2, vec![5, 6])), Ok(true));
    assert!(a.is_complete());
    assert_eq!(a.into_data(), vec![1, 2, 3, 4, 5, 6]);
}

#[test]
fn empty_file_is_complete_at_once() {
    let a = Assembler::new(16, 0);
    assert!(a.is_complete());
    assert!(a.into_data().is_empty());
}
