use literal_codec::context::{
    signed_3_bit_context, utf8_last_byte_context, utf8_second_last_byte_context,
};

#[test]
fn context_classes_are_those_of_the_brotli_format() {
    for b in 0..=255u8 {
        let i = b as usize;
        assert_eq!(utf8_last_byte_context(b), brotli::enc::constants::kUTF8ContextLookup[i]);
        assert_eq!(
            utf8_second_last_byte_context(b),
            brotli::enc::constants::kUTF8ContextLookup[i + 256]
        );
        assert_eq!(signed_3_bit_context(b), brotli::enc::constants::kSigned3BitContextLookup[i]);
    }
}
