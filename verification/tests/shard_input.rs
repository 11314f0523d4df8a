use erasure_coding::ShardInput;

fn input() -> ShardInput {
    ShardInput::new(
        vec![Some(vec![1, 2, 3]), Some(vec![4, 5, 6]), Some(vec![7, 8, 9]), None],
        2,
    )
}

#[test]
fn read_crosses_shards() {
    let mut input = input();
    let mut buffer = [0u8; 4];
    assert_eq!(input.read(&mut buffer), 4);
    assert_eq!(buffer, [1, 2, 3, 4]);
}

#[test]
fn short_read_at_the_end() {
    let mut input = input();
    let mut buffer = [0u8; 4];
    assert_eq!(input.read(&mut buffer), 4);
    let mut buffer = [0u8; 4];
    assert_eq!(input.read(&mut buffer), 2);
    assert_eq!(buffer, [5, 6, 0, 0]);
    assert_eq!(input.read(&mut buffer), 0);
    assert_eq!(buffer, [5, 6, 0, 0]);
}

#[test]
fn parity_shards_are_not_read() {
    let mut input = input();
    let mut buffer = [0u8; 16];
    assert_eq!(input.read(&mut buffer), 6);
    assert_eq!(&buffer[..6], &[1, 2, 3, 4, 5, 6]);
    assert_eq!(&buffer[6..], &[0; 10]);
}

#[test]
fn read_into_nothing() {
    let mut input = input();
    let mut buffer = [0u8; 0];
    assert_eq!(input.read(&mut buffer), 0);
    let mut buffer = [0u8; 1];
    assert_eq!(input.read(&mut buffer), 1);
    assert_eq!(buffer, [1]);
}

#[test]
fn read_byte_by_byte() {
    let mut input = input();
    for expected in 1..=6u8 {
        let mut buffer = [0u8; 1];
        assert_eq!(input.read(&mut buffer), 1);
        assert_eq!(buffer, [expected]);
    }
    let mut buffer = [0u8; 1];
    assert_eq!(input.read(&mut buffer), 0);
}

#[test]
fn read_goes_on_where_the_last_ended() {
    let mut input = input();
    let mut buffer = [0u8; 2];
    assert_eq!(input.read(&mut buffer), 2);
    assert_eq!(buffer, [1, 2]);
    assert_eq!(input.read(&mut buffer), 2);
    assert_eq!(buffer, [3, 4]);
}

#[test]
fn empty_shards_are_passed_over() {
    let mut input =
        ShardInput::new(vec![Some(vec![]), Some(vec![1]), Some(vec![]), Some(vec![2, 3])], 4);
    let mut buffer = [0u8; 3];
    assert_eq!(input.read(&mut buffer), 3);
    assert_eq!(buffer, [1, 2, 3]);
}

#[test]
fn no_data_shards_nothing_to_read() {
    let mut input = ShardInput::new(vec![None, Some(vec![1])], 0);
    let mut buffer = [0u8; 3];
    assert_eq!(input.read(&mut buffer), 0);
}

#[test]
fn read_to_the_end() {
    let mut input = input();
    assert_eq!(input.read_to_end(4), vec![1, 2, 3, 4, 5, 6]);
    assert_eq!(input.read_to_end(4), Vec::<u8>::new());
    let mut input = self::input();
    let mut buffer = [0u8; 4];
    assert_eq!(input.read(&mut buffer), 4);
    assert_eq!(input.read_to_end(1), vec![5, 6]);
}

#[test]
fn bytes_are_copied_to_their_place() {
    let mut into = [9u8; 6];
    erasure_coding::shard_input::copy_bytes(&mut into, 2, &[1, 2, 3, 4, 5], 1, 3);
    assert_eq!(into, [9, 9, 2, 3, 4, 9]);
    erasure_coding::shard_input::copy_bytes(&mut into, 6, &[1], 1, 0);
    assert_eq!(into, [9, 9, 2, 3, 4, 9]);
}
