use base64_codec::codec::Base64Codec;
use bytes::{BufMut, BytesMut};

#[test]
fn encode_decode() {
    let original = b"Hello, World!";
    let mut data = BytesMut::from(original.as_ref());
    let mut codec = Base64Codec::new_with_max_length(u16::max_value() as usize, 32000);
    let mut buffer = BytesMut::new();

    let data = &mut data;
    for x in 0..1000 {
        data.put_i32(x);
        codec.encode(&data[..], &mut buffer);
        let res: Vec<u8> = codec.decode(&mut buffer).unwrap().unwrap();
        assert_eq!(&res[..], &data[..]);
    }
}
