use jolt_verifier::chunks::{split_at, split_chunks, ChunkBuffer};
use jolt_verifier::error::Error;

fn sample(len: usize) -> Vec<u8> {
    (0..len).map(|i| (i * 7 + 3) as u8).collect()
}

#[test]
fn assemble_on_an_empty_buffer_misses_the_first_fragment() {
    let buffer = ChunkBuffer::new();
    assert_eq!(buffer.assemble(0), Err(Error::MissingChunk(0)));
    assert_eq!(buffer.assemble(5), Err(Error::MissingChunk(0)));
}

#[test]
fn a_single_fragment_assembles_to_itself() {
    let mut buffer = ChunkBuffer::new();
    buffer.put_chunk(0, vec![9, 8, 7]);
    assert_eq!(buffer.assemble(0), Ok(vec![9, 8, 7]));
}

#[test]
fn fragments_are_joined_in_index_order() {
    let mut buffer = ChunkBuffer::new();
    buffer.put_chunk(0, vec![1, 2]);
    buffer.put_chunk(1, vec![]);
    buffer.put_chunk(2, vec![3]);
    buffer.put_chunk(3, vec![4, 5, 6]);
    assert_eq!(buffer.assemble(3), Ok(vec![1, 2, 3, 4, 5, 6]));
    assert_eq!(buffer.assemble(2), Ok(vec![1, 2, 3]));
    assert_eq!(buffer.assemble(0), Ok(vec![1, 2]));
}

#[test]
fn assemble_reports_the_first_missing_index() {
    let mut buffer = ChunkBuffer::new();
    buffer.put_chunk(0, vec![1]);
    buffer.put_chunk(1, vec![2]);
    buffer.put_chunk(3, vec![4]);
    assert_eq!(buffer.assemble(3), Err(Error::MissingChunk(2)));
    assert_eq!(buffer.assemble(1), Ok(vec![1, 2]));
    buffer.put_chunk(5, vec![6]);
    assert_eq!(buffer.assemble(5), Err(Error::MissingChunk(2)));
}

#[test]
fn assemble_only_reads() {
    let mut buffer = ChunkBuffer::new();
    buffer.put_chunk(0, vec![1]);
    buffer.put_chunk(1, vec![2]);
    assert_eq!(buffer.assemble(1), Ok(vec![1, 2]));
    assert_eq!(buffer.assemble(1), Ok(vec![1, 2]));
    assert_eq!(buffer.get_chunk(0), Some(vec![1]));
    assert_eq!(buffer.get_chunk(1), Some(vec![2]));
}

#[test]
fn assemble_works_up_to_the_largest_index() {
    let mut buffer = ChunkBuffer::new();
    buffer.put_chunk(0, vec![1]);
    buffer.put_chunk(u32::MAX, vec![2]);
    assert_eq!(buffer.assemble(u32::MAX), Err(Error::MissingChunk(1)));
}

#[test]
fn put_chunk_overwrites_by_index() {
    let mut buffer = ChunkBuffer::new();
    buffer.put_chunk(0, vec![1, 1]);
    buffer.put_chunk(0, vec![2]);
    assert_eq!(buffer.get_chunk(0), Some(vec![2]));
    assert_eq!(buffer.assemble(0), Ok(vec![2]));
}

#[test]
fn putting_the_same_fragment_twice_is_putting_it_once() {
    let mut once = ChunkBuffer::new();
    once.put_chunk(4, vec![5, 6]);
    let mut twice = ChunkBuffer::new();
    twice.put_chunk(4, vec![5, 6]);
    twice.put_chunk(4, vec![5, 6]);
    for index in 0..8 {
        assert_eq!(once.get_chunk(index), twice.get_chunk(index));
        assert_eq!(once.contains(index), twice.contains(index));
    }
    assert_eq!(once.assemble(4), twice.assemble(4));
}

#[test]
fn get_chunk_and_contains_tell_what_is_there() {
    let mut buffer = ChunkBuffer::new();
    assert_eq!(buffer.get_chunk(0), None);
    assert!(!buffer.contains(0));
    buffer.put_chunk(7, vec![1, 2, 3]);
    assert_eq!(buffer.get_chunk(7), Some(vec![1, 2, 3]));
    assert!(buffer.contains(7));
    assert_eq!(buffer.get_chunk(6), None);
    assert!(!buffer.contains(6));
}

#[test]
fn clear_drops_every_fragment() {
    let mut buffer = ChunkBuffer::new();
    buffer.put_chunk(0, vec![1]);
    buffer.put_chunk(1, vec![2]);
    buffer.clear();
    assert_eq!(buffer.get_chunk(0), None);
    assert_eq!(buffer.get_chunk(1), None);
    assert_eq!(buffer.assemble(0), Err(Error::MissingChunk(0)));
}

#[test]
fn upload_order_does_not_matter() {
    let parts = [vec![1u8, 2], vec![3u8], vec![4u8, 5, 6]];
    let mut in_order = ChunkBuffer::new();
    for index in [0u32, 1, 2] {
        in_order.put_chunk(index, parts[index as usize].clone());
    }
    let mut shuffled = ChunkBuffer::new();
    for index in [2u32, 0, 1] {
        shuffled.put_chunk(index, parts[index as usize].clone());
    }
    assert_eq!(in_order.assemble(2), Ok(vec![1, 2, 3, 4, 5, 6]));
    assert_eq!(shuffled.assemble(2), in_order.assemble(2));
}

#[test]
fn stale_fragments_merge_with_a_later_upload() {
    let mut buffer = ChunkBuffer::new();
    buffer.put_chunk(0, vec![1]);
    buffer.put_chunk(1, vec![2]);
    buffer.put_chunk(0, vec![9]);
    assert_eq!(buffer.assemble(1), Ok(vec![9, 2]));
}

#[test]
fn split_chunks_cuts_every_chunk_size_bytes() {
    let bytes: Vec<u8> = (0u8..10).collect();
    assert_eq!(
        split_chunks(&bytes, 4),
        vec![vec![0u8, 1, 2, 3], vec![4u8, 5, 6, 7], vec![8u8, 9]]
    );
    assert_eq!(split_chunks(&bytes, 10), vec![bytes.clone(), vec![]]);
    assert_eq!(split_chunks(&bytes, 11), vec![bytes.clone()]);
    assert_eq!(split_chunks(&bytes, usize::MAX), vec![bytes.clone()]);
}

#[test]
fn split_chunks_ends_with_an_empty_fragment_on_a_multiple() {
    let bytes: Vec<u8> = (0u8..8).collect();
    assert_eq!(
        split_chunks(&bytes, 4),
        vec![vec![0u8, 1, 2, 3], vec![4u8, 5, 6, 7], vec![]]
    );
    assert_eq!(split_chunks(&[], 4), vec![Vec::<u8>::new()]);
    assert_eq!(split_chunks(&[7], 1), vec![vec![7u8], vec![]]);
}

#[test]
fn split_chunks_counts_length_over_chunk_size_plus_one() {
    for len in 0..40usize {
        for chunk_size in 1..12usize {
            let bytes = sample(len);
            let pieces = split_chunks(&bytes, chunk_size);
            assert_eq!(pieces.len(), len / chunk_size + 1);
            for piece in &pieces[..pieces.len() - 1] {
                assert_eq!(piece.len(), chunk_size);
            }
            assert_eq!(pieces[pieces.len() - 1].len(), len % chunk_size);
            assert_eq!(pieces.concat(), bytes);
        }
    }
}

#[test]
fn split_at_cuts_in_two() {
    let bytes: Vec<u8> = (0u8..6).collect();
    assert_eq!(split_at(&bytes, 2), (vec![0u8, 1], vec![2u8, 3, 4, 5]));
    assert_eq!(split_at(&bytes, 0), (vec![], bytes.clone()));
    assert_eq!(split_at(&bytes, 6), (bytes.clone(), vec![]));
}

#[test]
fn split_upload_and_assemble_give_the_bytes_back() {
    for len in [0usize, 1, 5, 64, 1000] {
        for chunk_size in [1usize, 3, 64, 999, 1000, 5000] {
            let bytes = sample(len);
            let pieces = split_chunks(&bytes, chunk_size);
            let last = (pieces.len() - 1) as u32;
            let mut buffer = ChunkBuffer::new();
            for (index, piece) in pieces.into_iter().enumerate().rev() {
                buffer.put_chunk(index as u32, piece);
            }
            assert_eq!(buffer.assemble(last), Ok(bytes));
        }
    }
}

#[test]
fn fragments_of_any_sizes_give_the_bytes_back() {
    let bytes = sample(100);
    let cuts = [0usize, 0, 1, 17, 17, 60, 99, 100, 100];
    let mut buffer = ChunkBuffer::new();
    for index in 0..cuts.len() - 1 {
        buffer.put_chunk(index as u32, bytes[cuts[index]..cuts[index + 1]].to_vec());
    }
    assert_eq!(buffer.assemble((cuts.len() - 2) as u32), Ok(bytes));
}
