use nson::util::md5;

#[test]
fn compute() {
    let inputs = [
        "",
        "a",
        "abc",
        "message digest",
        "abcdefghijklmnopqrstuvwxyz",
        "ABCDEFGHIJKLMNOPQRSTUVWXYZabcdefghijklmnopqrstuvwxyz0123456789",
        "12345678901234567890123456789012345678901234567890123456789012345678901234567890",
    ];

    let outputs = [
        "d41d8cd98f00b204e9800998ecf8427e",
        "0cc175b9c0f1b6a831c399e269772661",
        "900150983cd24fb0d6963f7d28e17f72",
        "f96b697d7cb7938d525a2f31aaf161d0",
        "c3fcd3d76192e4007dfb496cca67e13b",
        "d174ab98d277d9f5a5611c2c9f419d9f",
        "57edf4a22be3c955ac49da2e2107b67a",
    ];

    for (input, &output) in inputs.iter().zip(outputs.iter()) {
        assert_eq!(md5::compute(input.as_bytes()).to_hex(), output);
    }
}

#[test]
fn index() {
    let mut digest = md5::compute(b"abc");
    assert_eq!(digest.0[0], 0x90);
    assert_eq!(&digest.0[0], &0x90);
    assert_eq!(&mut digest.0[0], &mut 0x90);
}

#[test]
fn incremental_matches_one_shot() {
    let mut ctx = md5::Context::new();
    ctx.consume(b"message ");
    ctx.consume(b"digest");
    assert_eq!(ctx.compute(), md5::compute(b"message digest"));
}
