use riffu::riff_ram::Riff;

fn framed(id: &[u8; 4], payload: &[u8]) -> Vec<u8> {
    let mut bytes = id.to_vec();
    bytes.extend_from_slice(&(payload.len() as u32).to_le_bytes());
    bytes.extend_from_slice(payload);
    if payload.len() % 2 == 1 {
        bytes.push(0);
    }
    bytes
}

fn typed(id: &[u8; 4], tag: &[u8; 4], children: &[Vec<u8>]) -> Vec<u8> {
    let mut payload = tag.to_vec();
    payload.extend_from_slice(&children.concat());
    framed(id, &payload)
}

fn nested(second: &[u8]) -> Riff {
    let inner = typed(
        b"LIST",
        b"tst1",
        &[framed(b"test", b"hey this is a test"), framed(b"test", second)],
    );
    let tail = framed(b"SEQT", &framed(b"test", b"final test"));
    Riff::new(typed(b"RIFF", b"smpl", &[inner, tail]))
}

#[test]
fn test_minimal() {
    let file = Riff::new(typed(b"RIFF", b"smpl", &[framed(b"tst1", &[255])]));
    assert_eq!(file.payload_len().unwrap(), 14);
    assert_eq!(file.as_chunk().unwrap().id().unwrap().as_str().unwrap(), "RIFF");
    assert_eq!(
        file.as_chunk().unwrap().chunk_type().unwrap().as_str().unwrap(),
        "smpl"
    );
    let expected_content = vec![vec![255]];
    assert_eq!(
        file.iter().unwrap().collect().iter().fold(0, |acc, _| acc + 1),
        expected_content.len()
    );
    file.iter()
        .unwrap()
        .collect()
        .into_iter()
        .zip(expected_content)
        .for_each(|(chunk, expected)| {
            let chunk = chunk.unwrap();
            assert_eq!(chunk.content().unwrap().len(), expected.len());
            assert_eq!(chunk.content().unwrap(), expected);
        });
    assert!(file.iter().unwrap().collect().into_iter().skip(1).next().is_none());
}

#[test]
fn test_minimal_2() {
    let file = Riff::new(typed(
        b"RIFF",
        b"smpl",
        &[framed(b"tst1", &[255]), framed(b"tst2", &[238])],
    ));
    assert_eq!(file.payload_len().unwrap(), 24);
    assert_eq!(file.as_chunk().unwrap().id().unwrap().as_str().unwrap(), "RIFF");
    assert_eq!(
        file.as_chunk().unwrap().chunk_type().unwrap().as_str().unwrap(),
        "smpl"
    );
    let expected_content = vec![("tst1", vec![255]), ("tst2", vec![238])];
    assert_eq!(
        file.iter().unwrap().collect().iter().fold(0, |acc, _| acc + 1),
        expected_content.len()
    );
    file.iter()
        .unwrap()
        .collect()
        .into_iter()
        .zip(expected_content)
        .for_each(|(chunk, (name, data))| {
            let chunk = chunk.unwrap();
            assert_eq!(chunk.id().unwrap().as_str().unwrap(), name);
            assert_eq!(chunk.content().unwrap().len(), data.len());
            assert_eq!(chunk.content().unwrap(), data);
        });
    assert!(file.iter().unwrap().collect().into_iter().skip(2).next().is_none());
}

fn expect_nested(file: &Riff, payload_len: u32, second: &str) {
    {
        assert_eq!(file.payload_len().unwrap(), payload_len);
        assert_eq!(
            file.as_chunk().unwrap().id().unwrap().as_str().unwrap(),
            riffu::chunk_id::RIFF_ID
        );
        assert_eq!(
            file.as_chunk().unwrap().chunk_type().unwrap().as_str().unwrap(),
            "smpl"
        );
        assert_eq!(file.iter().unwrap().collect().iter().fold(0, |acc, _| acc + 1), 2);
    }
    {
        let list_1 = file.iter().unwrap().next().unwrap().unwrap();
        assert_eq!(list_1.id().unwrap().as_str().unwrap(), riffu::chunk_id::LIST_ID);
        assert_eq!(list_1.chunk_type().unwrap().as_str().unwrap(), "tst1");
        assert_eq!(list_1.iter().unwrap().collect().iter().fold(0, |acc, _| acc + 1), 2);
        {
            let test = list_1.iter().unwrap().next().unwrap().unwrap();
            assert_eq!(test.id().unwrap().as_str().unwrap(), "test");
            assert_eq!(test.content().unwrap(), "hey this is a test".as_bytes());
        }
        {
            let test = list_1.iter().unwrap().collect().into_iter().skip(1).next().unwrap().unwrap();
            assert_eq!(test.id().unwrap().as_str().unwrap(), "test");
            assert_eq!(test.content().unwrap(), second.as_bytes());
        }
    }
    {
        let list_1 = file.iter().unwrap().collect().into_iter().skip(1).next().unwrap().unwrap();
        assert_eq!(list_1.id().unwrap().as_str().unwrap(), riffu::chunk_id::SEQT_ID);
        assert_eq!(list_1.iter().unwrap().collect().iter().fold(0, |acc, _| acc + 1), 1);
        assert_eq!(
            list_1.iter().unwrap().next().unwrap().unwrap().id().unwrap().as_str().unwrap(),
            "test"
        );
        assert_eq!(
            list_1.iter().unwrap().next().unwrap().unwrap().content().unwrap(),
            "final test".as_bytes()
        );
    }
}

#[test]
fn test_test() {
    let file = nested(b"hey this is another test");
    expect_nested(&file, 100, "hey this is another test");
}

#[test]
fn test_test_2() {
    let file = nested(b"hey this is another test!");
    expect_nested(&file, 102, "hey this is another test!");
}
