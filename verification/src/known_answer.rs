//! The known answer of the block cipher: a key, a block and the block that
//! it encrypts to, with a proof that the cipher as defined gives that
//! answer.

use vstd::prelude::*;
use crate::speck::{
    encrypt_block, encrypt_state, expand_state, key_schedule, round_key, round_x, round_y,
};

verus! {

/// The key of the known answer, as four little-endian words.
pub const TEST_KEY: [u64; 4] = [
    0x0706_0504_0302_0100,
    0x0f0e_0d0c_0b0a_0908,
    0x1716_1514_1312_1110,
    0x1f1e_1d1c_1b1a_1918,
];

/// The plaintext block of the known answer.
pub const TEST_PLAINTEXT: [u64; 2] = [0x202e_7265_6e6f_6f70, 0x6573_6f68_7420_6e49];

/// The ciphertext block of the known answer.
pub const TEST_CIPHERTEXT: [u64; 2] = [0x4eee_b48d_9c18_8f43, 0x4109_0104_05c0_f53e];

/// The rounds that expand the test key, computed.
proof fn lemma_test_key_rounds()
    by (bit_vector)
    ensures
        round_x(0x0f0e_0d0c_0b0a_0908, 0x0706_0504_0302_0100, 0x0000_0000_0000_0000) == 0x0f15_1311_0f0d_0b09,
        round_y(0x0f0e_0d0c_0b0a_0908, 0x0706_0504_0302_0100, 0x0000_0000_0000_0000) == 0x3725_3b31_171d_0309,
        round_x(0x1716_1514_1312_1110, 0x3725_3b31_171d_0309, 0x0000_0000_0000_0001) == 0x473c_5146_2b30_151b,
        round_y(0x1716_1514_1312_1110, 0x3725_3b31_171d_0309, 0x0000_0000_0000_0001) == 0xfe15_88ce_93d8_0d52,
        round_x(0x1f1e_1d1c_1b1a_1918, 0xfe15_88ce_93d8_0d52, 0x0000_0000_0000_0002) == 0x1634_a6eb_aff3_2769,
        round_y(0x1f1e_1d1c_1b1a_1918, 0xfe15_88ce_93d8_0d52, 0x0000_0000_0000_0002) == 0xe698_e09f_3133_4dfe,
        round_x(0x0f15_1311_0f0d_0b09, 0xe698_e09f_3133_4dfe, 0x0000_0000_0000_0003) == 0xefa7_f5b2_4242_5b0a,
        round_y(0x0f15_1311_0f0d_0b09, 0xe698_e09f_3133_4dfe, 0x0000_0000_0000_0003) == 0xdb60_f14b_cbd8_34fd,
        round_x(0x473c_5146_2b30_151b, 0xdb60_f14b_cbd8_34fd, 0x0000_0000_0000_0004) == 0xf6a8_2d9d_1203_6516,
        round_y(0x473c_5146_2b30_151b, 0xdb60_f14b_cbd8_34fd, 0x0000_0000_0000_0004) == 0x2daf_a7c3_4cc2_c2f8,
        round_x(0x1634_a6eb_aff3_2769, 0x2daf_a7c3_4cc2_c2f8, 0x0000_0000_0000_0005) == 0x96c5_dc6a_3872_b61a,
        round_y(0x1634_a6eb_aff3_2769, 0x2daf_a7c3_4cc2_c2f8, 0x0000_0000_0000_0005) == 0xfbb8_e270_5e64_a1db,
        round_x(0xefa7_f5b2_4242_5b0a, 0xfbb8_e270_5e64_a1db, 0x0000_0000_0000_0006) == 0x06a8_8a66_10a6_e430,
        round_y(0xefa7_f5b2_4242_5b0a, 0xfbb8_e270_5e64_a1db, 0x0000_0000_0000_0006) == 0xdb6f_99e4_e383_eaef,
        round_x(0xf6a8_2d9d_1203_6516, 0xdb6f_99e4_e383_eaef, 0x0000_0000_0000_0007) == 0xf266_4212_8095_ee53,
        round_y(0xf6a8_2d9d_1203_6516, 0xdb6f_99e4_e383_eaef, 0x0000_0000_0000_0007) == 0x291a_8d35_9c8a_b92d,
        round_x(0x96c5_dc6a_3872_b61a, 0x291a_8d35_9c8a_b92d, 0x0000_0000_0000_0008) == 0x43b1_5312_06c3_2beb,
        round_y(0x96c5_dc6a_3872_b61a, 0x291a_8d35_9c8a_b92d, 0x0000_0000_0000_0008) == 0x0b65_3abe_e296_e282,
        round_x(0x06a8_8a66_10a6_e430, 0x0b65_3abe_e296_e282, 0x0000_0000_0000_0009) == 0x3b6b_e349_48a7_896f,
        round_y(0x06a8_8a66_10a6_e430, 0x0b65_3abe_e296_e282, 0x0000_0000_0000_0009) == 0x6042_36be_5c10_9d7f,
        round_x(0xf266_4212_8095_ee53, 0x6042_36be_5c10_9d7f, 0x0000_0000_0000_000a) == 0xb434_9d00_6e91_3367,
        round_y(0xf266_4212_8095_ee53, 0x6042_36be_5c10_9d7f, 0x0000_0000_0000_000a) == 0xb625_28f2_8e15_d89c,
        round_x(0x43b1_5312_06c3_2beb, 0xb625_28f2_8e15_d89c, 0x0000_0000_0000_000b) == 0xa168_da45_a01c_9bcc,
        round_y(0x43b1_5312_06c3_2beb, 0xb625_28f2_8e15_d89c, 0x0000_0000_0000_000b) == 0x1041_9dd1_d0b2_5f29,
        round_x(0x3b6b_e349_48a7_896f, 0x1041_9dd1_d0b2_5f29, 0x0000_0000_0000_000c) == 0x7f7d_09b5_19fb_06be,
        round_y(0x3b6b_e349_48a7_896f, 0x1041_9dd1_d0b2_5f29, 0x0000_0000_0000_000c) == 0xfd71_e73b_9c69_fff6,
        round_x(0xb434_9d00_6e91_3367, 0xfd71_e73b_9c69_fff6, 0x0000_0000_0000_000d) == 0x6526_1bd8_9cd8_9124,
        round_y(0xb434_9d00_6e91_3367, 0xfd71_e73b_9c69_fff6, 0x0000_0000_0000_000d) == 0x8ea9_2204_7f97_6e93,
        round_x(0xa168_da45_a01c_9bcc, 0x8ea9_2204_7f97_6e93, 0x0000_0000_0000_000e) == 0x5b4a_8ade_c537_8b20,
        round_y(0xa168_da45_a01c_9bcc, 0x8ea9_2204_7f97_6e93, 0x0000_0000_0000_000e) == 0x2e03_9afd_398c_ffbc,
        round_x(0x7f7d_09b5_19fb_06be, 0x2e03_9afd_398c_ffbc, 0x0000_0000_0000_000f) == 0xec83_1806_eea6_facd,
        round_y(0x7f7d_09b5_19fb_06be, 0x2e03_9afd_398c_ffbc, 0x0000_0000_0000_000f) == 0x9c9f_cfef_22c1_072c,
        round_x(0x6526_1bd8_9cd8_9124, 0x9c9f_cfef_22c1_072c, 0x0000_0000_0000_0010) == 0xc104_f60a_fb5d_dfad,
        round_y(0x6526_1bd8_9cd8_9124, 0x9c9f_cfef_22c1_072c, 0x0000_0000_0000_0010) == 0x25fa_8973_ed55_e6c9,
        round_x(0x5b4a_8ade_c537_8b20, 0x25fa_8973_ed55_e6c9, 0x0000_0000_0000_0011) == 0x4655_d3fe_cc1b_1e45,
        round_y(0x5b4a_8ade_c537_8b20, 0x25fa_8973_ed55_e6c9, 0x0000_0000_0000_0011) == 0x6981_9861_a6b4_280c,
        round_x(0xec83_1806_eea6_facd, 0x6981_9861_a6b4_280c, 0x0000_0000_0000_0012) == 0x376e_1b79_ada2_cf14,
        round_y(0xec83_1806_eea6_facd, 0x6981_9861_a6b4_280c, 0x0000_0000_0000_0012) == 0x7b62_d874_9803_8f77,
        round_x(0xc104_f60a_fb5d_dfad, 0x7b62_d874_9803_8f77, 0x0000_0000_0000_0013) == 0x2923_dd6a_a2fe_ed45,
        round_y(0xc104_f60a_fb5d_dfad, 0x7b62_d874_9803_8f77, 0x0000_0000_0000_0013) == 0xf235_1ece_62e2_96fe,
        round_x(0x4655_d3fe_cc1b_1e45, 0xf235_1ece_62e2_96fe, 0x0000_0000_0000_0014) == 0x377b_74a2_61ae_b208,
        round_y(0x4655_d3fe_cc1b_1e45, 0xf235_1ece_62e2_96fe, 0x0000_0000_0000_0014) == 0xa6d3_82d1_76ba_05ff,
        round_x(0x376e_1b79_ada2_cf14, 0xa6d3_82d1_76ba_05ff, 0x0000_0000_0000_0015) == 0xbb0a_f0ec_f067_a8db,
        round_y(0x376e_1b79_ada2_cf14, 0xa6d3_82d1_76ba_05ff, 0x0000_0000_0000_0015) == 0x8d96_e667_45b7_8726,
        round_x(0x2923_dd6a_a2fe_ed45, 0x8d96_e667_45b7_8726, 0x0000_0000_0000_0016) == 0xd2c0_0a44_b05a_8605,
        round_y(0x2923_dd6a_a2fe_ed45, 0x8d96_e667_45b7_8726, 0x0000_0000_0000_0016) == 0xbe77_397e_9de6_bf31,
        round_x(0x377b_74a2_61ae_b208, 0xbe77_397e_9de6_bf31, 0x0000_0000_0000_0017) == 0xc6ae_b4f3_4048_6df4,
        round_y(0x377b_74a2_61ae_b208, 0xbe77_397e_9de6_bf31, 0x0000_0000_0000_0017) == 0x3517_7f07_af7d_9479,
        round_x(0xbb0a_f0ec_f067_a8db, 0x3517_7f07_af7d_9479, 0x0000_0000_0000_0018) == 0x10d2_89f8_9c6d_fc39,
        round_y(0xbb0a_f0ec_f067_a8db, 0x3517_7f07_af7d_9479, 0x0000_0000_0000_0018) == 0xb869_71c5_e781_5ff0,
        round_x(0xd2c0_0a44_b05a_8605, 0xb869_71c5_e781_5ff0, 0x0000_0000_0000_0019) == 0xbe3c_31d0_2c31_ba6f,
        round_y(0xd2c0_0a44_b05a_8605, 0xb869_71c5_e781_5ff0, 0x0000_0000_0000_0019) == 0x7d77_bfff_103b_45ea,
        round_x(0xc6ae_b4f3_4048_6df4, 0x7d77_bfff_103b_45ea, 0x0000_0000_0000_001a) == 0x723e_6eb4_037b_8e4d,
        round_y(0xc6ae_b4f3_4048_6df4, 0x7d77_bfff_103b_45ea, 0x0000_0000_0000_001a) == 0x9983_914c_82a1_a11e,
        round_x(0x10d2_89f8_9c6d_fc39, 0x9983_914c_82a1_a11e, 0x0000_0000_0000_001b) == 0xd294_63d6_7b3e_0f01,
        round_y(0x10d2_89f8_9c6d_fc39, 0x9983_914c_82a1_a11e, 0x0000_0000_0000_001b) == 0x1e88_e9b2_6e33_07f5,
        round_x(0xbe3c_31d0_2c31_ba6f, 0x1e88_e9b2_6e33_07f5, 0x0000_0000_0000_001c) == 0x8e47_25e4_3e5f_39b3,
        round_y(0xbe3c_31d0_2c31_ba6f, 0x1e88_e9b2_6e33_07f5, 0x0000_0000_0000_001c) == 0x7a00_6877_4fc7_061b,
        round_x(0x723e_6eb4_037b_8e4d, 0x7a00_6877_4fc7_061b, 0x0000_0000_0000_001d) == 0xc772_a6e6_03ca_81b4,
        round_y(0x723e_6eb4_037b_8e4d, 0x7a00_6877_4fc7_061b, 0x0000_0000_0000_001d) == 0x1771_e55c_7df2_b16f,
        round_x(0xd294_63d6_7b3e_0f01, 0x1771_e55c_7df2_b16f, 0x0000_0000_0000_001e) == 0x1944_79c0_546d_ef60,
        round_y(0xd294_63d6_7b3e_0f01, 0x1771_e55c_7df2_b16f, 0x0000_0000_0000_001e) == 0xa2cb_5323_bbf8_6418,
        round_x(0x8e47_25e4_3e5f_39b3, 0xa2cb_5323_bbf8_6418, 0x0000_0000_0000_001f) == 0x5659_9a49_a036_c34e,
        round_y(0x8e47_25e4_3e5f_39b3, 0xa2cb_5323_bbf8_6418, 0x0000_0000_0000_001f) == 0x4003_0354_7ff5_e38b,
        round_x(0xc772_a6e6_03ca_81b4, 0x4003_0354_7ff5_e38b, 0x0000_0000_0000_0020) == 0xf4ca_75fb_65f9_ae2c,
        round_y(0xc772_a6e6_03ca_81b4, 0x4003_0354_7ff5_e38b, 0x0000_0000_0000_0020) == 0xf4d2_6f58_9a56_b276,
{
}

/// The rounds that encrypt the test block, computed.
proof fn lemma_test_block_rounds()
    by (bit_vector)
    ensures
        round_x(0x6573_6f68_7420_6e49, 0x202e_7265_6e6f_6f70, 0x0706_0504_0302_0100) == 0x6e95_e0d0_d5e1_8ede,
        round_y(0x6573_6f68_7420_6e49, 0x202e_7265_6e6f_6f70, 0x0706_0504_0302_0100) == 0x6fe6_73fb_a69a_f55f,
        round_x(0x6e95_e0d0_d5e1_8ede, 0x6fe6_73fb_a69a_f55f, 0x3725_3b31_171d_0309) == 0x7970_32ed_606d_d5e4,
        round_y(0x6e95_e0d0_d5e1_8ede, 0x6fe6_73fb_a69a_f55f, 0x3725_3b31_171d_0309) == 0x0643_ad30_54ba_7f1f,
        round_x(0x7970_32ed_606d_d5e4, 0x0643_ad30_54ba_7f1f, 0xfe15_88ce_93d8_0d52) == 0x14a8_95ad_d1c2_e1a6,
        round_y(0x7970_32ed_606d_d5e4, 0x0643_ad30_54ba_7f1f, 0xfe15_88ce_93d8_0d52) == 0x26b5_fc2f_7411_195e,
        round_x(0x14a8_95ad_d1c2_e1a6, 0x26b5_fc2f_7411_195e, 0xe698_e09f_3133_4dfe) == 0x2a52_445a_10d1_91c1,
        round_y(0x14a8_95ad_d1c2_e1a6, 0x26b5_fc2f_7411_195e, 0xe698_e09f_3133_4dfe) == 0x1ffd_a521_b059_5b30,
        round_x(0x2a52_445a_10d1_91c1, 0x1ffd_a521_b059_5b30, 0xdb60_f14b_cbd8_34fd) == 0x3a47_062d_c1b2_183c,
        round_y(0x2a52_445a_10d1_91c1, 0x1ffd_a521_b059_5b30, 0xdb60_f14b_cbd8_34fd) == 0xc5aa_2f20_4378_c1bc,
        round_x(0x3a47_062d_c1b2_183c, 0xc5aa_2f20_4378_c1bc, 0x2daf_a7c3_4cc2_c2f8) == 0x2c4b_d1e5_3df8_b12c,
        round_y(0x3a47_062d_c1b2_183c, 0xc5aa_2f20_4378_c1bc, 0x2daf_a7c3_4cc2_c2f8) == 0x011a_a8e7_263e_bcca,
        round_x(0x2c4b_d1e5_3df8_b12c, 0x011a_a8e7_263e_bcca, 0xfbb8_e270_5e64_a1db) == 0xd6fe_16c9_5518_14a0,
        round_y(0x2c4b_d1e5_3df8_b12c, 0x011a_a8e7_263e_bcca, 0xfbb8_e270_5e64_a1db) == 0xde2b_51f0_64ed_f2f0,
        round_x(0xd6fe_16c9_5518_14a0, 0xde2b_51f0_64ed_f2f0, 0xdb6f_99e4_e383_eaef) == 0xa46d_c9e3_cdc0_e1eb,
        round_y(0xd6fe_16c9_5518_14a0, 0xde2b_51f0_64ed_f2f0, 0xdb6f_99e4_e383_eaef) == 0x5537_4660_eaaf_766d,
        round_x(0xa46d_c9e3_cdc0_e1eb, 0x5537_4660_eaaf_766d, 0x291a_8d35_9c8a_b92d) == 0x69c1_391f_52f7_8e63,
        round_y(0xa46d_c9e3_cdc0_e1eb, 0x5537_4660_eaaf_766d, 0x291a_8d35_9c8a_b92d) == 0xc07b_0a18_078c_3d09,
        round_x(0x69c1_391f_52f7_8e63, 0xc07b_0a18_078c_3d09, 0x0b65_3abe_e296_e282) == 0x2881_f1ef_c449_d615,
        round_y(0x69c1_391f_52f7_8e63, 0xc07b_0a18_078c_3d09, 0x0b65_3abe_e296_e282) == 0x2b59_a12f_f828_3e5b,
        round_x(0x2881_f1ef_c449_d615, 0x2b59_a12f_f828_3e5b, 0x6042_36be_5c10_9d7f) == 0x20c0_159f_bbfc_154e,
        round_y(0x2881_f1ef_c449_d615, 0x2b59_a12f_f828_3e5b, 0x6042_36be_5c10_9d7f) == 0x7a0d_1ce0_7abd_e797,
        round_x(0x20c0_159f_bbfc_154e, 0x7a0d_1ce0_7abd_e797, 0xb625_28f2_8e15_d89c) == 0x7e08_f404_946c_3b30,
        round_y(0x20c0_159f_bbfc_154e, 0x7a0d_1ce0_7abd_e797, 0xb625_28f2_8e15_d89c) == 0xae60_1307_4183_078b,
        round_x(0x7e08_f404_946c_3b30, 0xae60_1307_4183_078b, 0x1041_9dd1_d0b2_5f29) == 0xce9f_862a_96a5_2cef,
        round_y(0x7e08_f404_946c_3b30, 0xae60_1307_4183_078b, 0x1041_9dd1_d0b2_5f29) == 0xbd9f_1e10_9abd_10b2,
        round_x(0xce9f_862a_96a5_2cef, 0xbd9f_1e10_9abd_10b2, 0xfd71_e73b_9c69_fff6) == 0x501c_5aad_593a_4a28,
        round_y(0xce9f_862a_96a5_2cef, 0xbd9f_1e10_9abd_10b2, 0xfd71_e73b_9c69_fff6) == 0xbce4_aa29_8cd2_cfbd,
        round_x(0x501c_5aad_593a_4a28, 0xbce4_aa29_8cd2_cfbd, 0x8ea9_2204_7f97_6e93) == 0x6b9d_e480_45bb_6494,
        round_y(0x501c_5aad_593a_4a28, 0xbce4_aa29_8cd2_cfbd, 0x8ea9_2204_7f97_6e93) == 0x8cb8_b5cc_232d_1979,
        round_x(0x6b9d_e480_45bb_6494, 0x8cb8_b5cc_232d_1979, 0x2e03_9afd_398c_ffbc) == 0x0f27_c94d_9afe_2b61,
        round_y(0x6b9d_e480_45bb_6494, 0x8cb8_b5cc_232d_1979, 0x2e03_9afd_398c_ffbc) == 0x6ae2_672c_8396_e0ad,
        round_x(0x0f27_c94d_9afe_2b61, 0x6ae2_672c_8396_e0ad, 0x9c9f_cfef_22c1_072c) == 0x576e_411a_f3f0_d9f4,
        round_y(0x0f27_c94d_9afe_2b61, 0x6ae2_672c_8396_e0ad, 0x9c9f_cfef_22c1_072c) == 0x007d_787e_ef47_dc9f,
        round_x(0x576e_411a_f3f0_d9f4, 0x007d_787e_ef47_dc9f, 0x25fa_8973_ed55_e6c9) == 0xd12e_6fb3_e76e_2bb1,
        round_y(0x576e_411a_f3f0_d9f4, 0x007d_787e_ef47_dc9f, 0x25fa_8973_ed55_e6c9) == 0xd2c5_ac44_9d50_cf49,
        round_x(0xd12e_6fb3_e76e_2bb1, 0xd2c5_ac44_9d50_cf49, 0x6981_9861_a6b4_280c) == 0xed17_42d5_f78c_1578,
        round_y(0xd12e_6fb3_e76e_2bb1, 0xd2c5_ac44_9d50_cf49, 0x6981_9861_a6b4_280c) == 0x7b3a_20f1_1d0a_6f36,
        round_x(0xed17_42d5_f78c_1578, 0x7b3a_20f1_1d0a_6f36, 0x7b62_d874_9803_8f77) == 0x8f45_e047_6b02_743c,
        round_y(0xed17_42d5_f78c_1578, 0x7b3a_20f1_1d0a_6f36, 0x7b62_d874_9803_8f77) == 0x5694_e7cf_8351_0d8f,
        round_x(0x8f45_e047_6b02_743c, 0x5694_e7cf_8351_0d8f, 0xf235_1ece_62e2_96fe) == 0x6111_3361_a85e_86fd,
        round_y(0x8f45_e047_6b02_743c, 0x5694_e7cf_8351_0d8f, 0xf235_1ece_62e2_96fe) == 0xd5b6_0d1d_b2d6_ea87,
        round_x(0x6111_3361_a85e_86fd, 0xd5b6_0d1d_b2d6_ea87, 0xa6d3_82d1_76ba_05ff) == 0x75c4_9c80_62c5_4cf2,
        round_y(0x6111_3361_a85e_86fd, 0xd5b6_0d1d_b2d6_ea87, 0xa6d3_82d1_76ba_05ff) == 0xd874_f46d_f472_18cc,
        round_x(0x75c4_9c80_62c5_4cf2, 0xd874_f46d_f472_18cc, 0x8d96_e667_45b7_8726) == 0x477c_5f6d_3163_593e,
        round_y(0x75c4_9c80_62c5_4cf2, 0xd874_f46d_f472_18cc, 0x8d96_e667_45b7_8726) == 0x84db_fc02_92f3_9f58,
        round_x(0x477c_5f6d_3163_593e, 0x84db_fc02_92f3_9f58, 0xbe77_397e_9de6_bf31) == 0x7d54_411c_9dc3_bd80,
        round_y(0x477c_5f6d_3163_593e, 0x84db_fc02_92f3_9f58, 0xbe77_397e_9de6_bf31) == 0x5b8b_a108_0a5f_4744,
        round_x(0x7d54_411c_9dc3_bd80, 0x5b8b_a108_0a5f_4744, 0x3517_7f07_af7d_9479) == 0xe91f_8a4e_8980_9f78,
        round_y(0x7d54_411c_9dc3_bd80, 0x5b8b_a108_0a5f_4744, 0x3517_7f07_af7d_9479) == 0x3542_820e_db7a_a55a,
        round_x(0xe91f_8a4e_8980_9f78, 0x3542_820e_db7a_a55a, 0xb869_71c5_e781_5ff0) == 0x1642_d05c_cd85_7a09,
        round_y(0xe91f_8a4e_8980_9f78, 0x3542_820e_db7a_a55a, 0xb869_71c5_e781_5ff0) == 0xbc56_c02a_1650_50d8,
        round_x(0x1642_d05c_cd85_7a09, 0xbc56_c02a_1650_50d8, 0x7d77_bfff_103b_45ea) == 0xb81a_bd05_6326_93b8,
        round_y(0x1642_d05c_cd85_7a09, 0xbc56_c02a_1650_50d8, 0x7d77_bfff_103b_45ea) == 0x5aac_bc55_d1a4_157d,
        round_x(0xb81a_bd05_6326_93b8, 0x5aac_bc55_d1a4_157d, 0x9983_914c_82a1_a11e) == 0x8ae7_465e_55a6_9d0e,
        round_y(0xb81a_bd05_6326_93b8, 0x5aac_bc55_d1a4_157d, 0x9983_914c_82a1_a11e) == 0x5f82_a4f0_d886_36e4,
        round_x(0x8ae7_465e_55a6_9d0e, 0x5f82_a4f0_d886_36e4, 0x1e88_e9b2_6e33_07f5) == 0x7085_6585_58e8_da74,
        round_y(0x8ae7_465e_55a6_9d0e, 0x5f82_a4f0_d886_36e4, 0x1e88_e9b2_6e33_07f5) == 0x8c90_4203_9cd9_6d56,
        round_x(0x7085_6585_58e8_da74, 0x8c90_4203_9cd9_6d56, 0x7a00_6877_4fc7_061b) == 0x7b00_af1e_6df5_502b,
        round_y(0x7085_6585_58e8_da74, 0x8c90_4203_9cd9_6d56, 0x7a00_6877_4fc7_061b) == 0x1f82_bf02_8b3e_3a9f,
        round_x(0x7b00_af1e_6df5_502b, 0x1f82_bf02_8b3e_3a9f, 0x1771_e55c_7df2_b16f) == 0x5d8c_5aed_d45e_9e80,
        round_y(0x7b00_af1e_6df5_502b, 0x1f82_bf02_8b3e_3a9f, 0x1771_e55c_7df2_b16f) == 0xa199_a2f9_8daf_4a78,
        round_x(0x5d8c_5aed_d45e_9e80, 0xa199_a2f9_8daf_4a78, 0xa2cb_5323_bbf8_6418) == 0x833c_7c77_c07b_cd0e,
        round_y(0x5d8c_5aed_d45e_9e80, 0xa199_a2f9_8daf_4a78, 0xa2cb_5323_bbf8_6418) == 0x8ff1_6bbb_ad01_9ecb,
        round_x(0x833c_7c77_c07b_cd0e, 0x8ff1_6bbb_ad01_9ecb, 0x4003_0354_7ff5_e38b) == 0xde77_ab6c_5b37_f913,
        round_y(0x833c_7c77_c07b_cd0e, 0x8ff1_6bbb_ad01_9ecb, 0x4003_0354_7ff5_e38b) == 0xa1fc_f6b1_333b_0f4f,
        round_x(0xde77_ab6c_5b37_f913, 0xa1fc_f6b1_333b_0f4f, 0xf4d2_6f58_9a56_b276) == 0x4109_0104_05c0_f53e,
        round_y(0xde77_ab6c_5b37_f913, 0xa1fc_f6b1_333b_0f4f, 0xf4d2_6f58_9a56_b276) == 0x4eee_b48d_9c18_8f43,
{
}

/// The round keys of the test key.
pub open spec fn test_schedule() -> Seq<u64> {
    seq![
        0x0706_0504_0302_0100u64,
        0x3725_3b31_171d_0309u64,
        0xfe15_88ce_93d8_0d52u64,
        0xe698_e09f_3133_4dfeu64,
        0xdb60_f14b_cbd8_34fdu64,
        0x2daf_a7c3_4cc2_c2f8u64,
        0xfbb8_e270_5e64_a1dbu64,
        0xdb6f_99e4_e383_eaefu64,
        0x291a_8d35_9c8a_b92du64,
        0x0b65_3abe_e296_e282u64,
        0x6042_36be_5c10_9d7fu64,
        0xb625_28f2_8e15_d89cu64,
        0x1041_9dd1_d0b2_5f29u64,
        0xfd71_e73b_9c69_fff6u64,
        0x8ea9_2204_7f97_6e93u64,
        0x2e03_9afd_398c_ffbcu64,
        0x9c9f_cfef_22c1_072cu64,
        0x25fa_8973_ed55_e6c9u64,
        0x6981_9861_a6b4_280cu64,
        0x7b62_d874_9803_8f77u64,
        0xf235_1ece_62e2_96feu64,
        0xa6d3_82d1_76ba_05ffu64,
        0x8d96_e667_45b7_8726u64,
        0xbe77_397e_9de6_bf31u64,
        0x3517_7f07_af7d_9479u64,
        0xb869_71c5_e781_5ff0u64,
        0x7d77_bfff_103b_45eau64,
        0x9983_914c_82a1_a11eu64,
        0x1e88_e9b2_6e33_07f5u64,
        0x7a00_6877_4fc7_061bu64,
        0x1771_e55c_7df2_b16fu64,
        0xa2cb_5323_bbf8_6418u64,
        0x4003_0354_7ff5_e38bu64,
        0xf4d2_6f58_9a56_b276u64,
    ]
}

proof fn lemma_test_schedule_1()
    ensures
        round_key(TEST_KEY@, 0) == 0x0706_0504_0302_0100,
        round_key(TEST_KEY@, 1) == 0x3725_3b31_171d_0309,
        round_key(TEST_KEY@, 2) == 0xfe15_88ce_93d8_0d52,
        round_key(TEST_KEY@, 3) == 0xe698_e09f_3133_4dfe,
        round_key(TEST_KEY@, 4) == 0xdb60_f14b_cbd8_34fd,
        round_key(TEST_KEY@, 5) == 0x2daf_a7c3_4cc2_c2f8,
        round_key(TEST_KEY@, 6) == 0xfbb8_e270_5e64_a1db,
        round_key(TEST_KEY@, 7) == 0xdb6f_99e4_e383_eaef,
        round_key(TEST_KEY@, 8) == 0x291a_8d35_9c8a_b92d,
        round_key(TEST_KEY@, 9) == 0x0b65_3abe_e296_e282,
        round_key(TEST_KEY@, 10) == 0x6042_36be_5c10_9d7f,
        round_key(TEST_KEY@, 11) == 0xb625_28f2_8e15_d89c,
        expand_state(TEST_KEY@, 11) == (0xb625_28f2_8e15_d89cu64, seq![0x3b6b_e349_48a7_896fu64, 0xb434_9d00_6e91_3367u64, 0x43b1_5312_06c3_2bebu64]),
{
    lemma_test_key_rounds();
    let key = TEST_KEY@;
    assert(key.subrange(1, 4) =~= seq![0x0f0e_0d0c_0b0a_0908u64, 0x1716_1514_1312_1110u64, 0x1f1e_1d1c_1b1a_1918u64]);
    assert(expand_state(key, 0) == (0x0706_0504_0302_0100u64, seq![0x0f0e_0d0c_0b0a_0908u64, 0x1716_1514_1312_1110u64, 0x1f1e_1d1c_1b1a_1918u64]));
    assert(seq![0x0f0e_0d0c_0b0a_0908u64, 0x1716_1514_1312_1110u64, 0x1f1e_1d1c_1b1a_1918u64].update(0, 0x0f15_1311_0f0d_0b09u64) =~= seq![0x0f15_1311_0f0d_0b09u64, 0x1716_1514_1312_1110u64, 0x1f1e_1d1c_1b1a_1918u64]);
    assert(expand_state(key, 1) == (0x3725_3b31_171d_0309u64, seq![0x0f15_1311_0f0d_0b09u64, 0x1716_1514_1312_1110u64, 0x1f1e_1d1c_1b1a_1918u64]));
    assert(seq![0x0f15_1311_0f0d_0b09u64, 0x1716_1514_1312_1110u64, 0x1f1e_1d1c_1b1a_1918u64].update(1, 0x473c_5146_2b30_151bu64) =~= seq![0x0f15_1311_0f0d_0b09u64, 0x473c_5146_2b30_151bu64, 0x1f1e_1d1c_1b1a_1918u64]);
    assert(expand_state(key, 2) == (0xfe15_88ce_93d8_0d52u64, seq![0x0f15_1311_0f0d_0b09u64, 0x473c_5146_2b30_151bu64, 0x1f1e_1d1c_1b1a_1918u64]));
    assert(seq![0x0f15_1311_0f0d_0b09u64, 0x473c_5146_2b30_151bu64, 0x1f1e_1d1c_1b1a_1918u64].update(2, 0x1634_a6eb_aff3_2769u64) =~= seq![0x0f15_1311_0f0d_0b09u64, 0x473c_5146_2b30_151bu64, 0x1634_a6eb_aff3_2769u64]);
    assert(expand_state(key, 3) == (0xe698_e09f_3133_4dfeu64, seq![0x0f15_1311_0f0d_0b09u64, 0x473c_5146_2b30_151bu64, 0x1634_a6eb_aff3_2769u64]));
    assert(seq![0x0f15_1311_0f0d_0b09u64, 0x473c_5146_2b30_151bu64, 0x1634_a6eb_aff3_2769u64].update(0, 0xefa7_f5b2_4242_5b0au64) =~= seq![0xefa7_f5b2_4242_5b0au64, 0x473c_5146_2b30_151bu64, 0x1634_a6eb_aff3_2769u64]);
    assert(expand_state(key, 4) == (0xdb60_f14b_cbd8_34fdu64, seq![0xefa7_f5b2_4242_5b0au64, 0x473c_5146_2b30_151bu64, 0x1634_a6eb_aff3_2769u64]));
    assert(seq![0xefa7_f5b2_4242_5b0au64, 0x473c_5146_2b30_151bu64, 0x1634_a6eb_aff3_2769u64].update(1, 0xf6a8_2d9d_1203_6516u64) =~= seq![0xefa7_f5b2_4242_5b0au64, 0xf6a8_2d9d_1203_6516u64, 0x1634_a6eb_aff3_2769u64]);
    assert(expand_state(key, 5) == (0x2daf_a7c3_4cc2_c2f8u64, seq![0xefa7_f5b2_4242_5b0au64, 0xf6a8_2d9d_1203_6516u64, 0x1634_a6eb_aff3_2769u64]));
    assert(seq![0xefa7_f5b2_4242_5b0au64, 0xf6a8_2d9d_1203_6516u64, 0x1634_a6eb_aff3_2769u64].update(2, 0x96c5_dc6a_3872_b61au64) =~= seq![0xefa7_f5b2_4242_5b0au64, 0xf6a8_2d9d_1203_6516u64, 0x96c5_dc6a_3872_b61au64]);
    assert(expand_state(key, 6) == (0xfbb8_e270_5e64_a1dbu64, seq![0xefa7_f5b2_4242_5b0au64, 0xf6a8_2d9d_1203_6516u64, 0x96c5_dc6a_3872_b61au64]));
    assert(seq![0xefa7_f5b2_4242_5b0au64, 0xf6a8_2d9d_1203_6516u64, 0x96c5_dc6a_3872_b61au64].update(0, 0x06a8_8a66_10a6_e430u64) =~= seq![0x06a8_8a66_10a6_e430u64, 0xf6a8_2d9d_1203_6516u64, 0x96c5_dc6a_3872_b61au64]);
    assert(expand_state(key, 7) == (0xdb6f_99e4_e383_eaefu64, seq![0x06a8_8a66_10a6_e430u64, 0xf6a8_2d9d_1203_6516u64, 0x96c5_dc6a_3872_b61au64]));
    assert(seq![0x06a8_8a66_10a6_e430u64, 0xf6a8_2d9d_1203_6516u64, 0x96c5_dc6a_3872_b61au64].update(1, 0xf266_4212_8095_ee53u64) =~= seq![0x06a8_8a66_10a6_e430u64, 0xf266_4212_8095_ee53u64, 0x96c5_dc6a_3872_b61au64]);
    assert(expand_state(key, 8) == (0x291a_8d35_9c8a_b92du64, seq![0x06a8_8a66_10a6_e430u64, 0xf266_4212_8095_ee53u64, 0x96c5_dc6a_3872_b61au64]));
    assert(seq![0x06a8_8a66_10a6_e430u64, 0xf266_4212_8095_ee53u64, 0x96c5_dc6a_3872_b61au64].update(2, 0x43b1_5312_06c3_2bebu64) =~= seq![0x06a8_8a66_10a6_e430u64, 0xf266_4212_8095_ee53u64, 0x43b1_5312_06c3_2bebu64]);
    assert(expand_state(key, 9) == (0x0b65_3abe_e296_e282u64, seq![0x06a8_8a66_10a6_e430u64, 0xf266_4212_8095_ee53u64, 0x43b1_5312_06c3_2bebu64]));
    assert(seq![0x06a8_8a66_10a6_e430u64, 0xf266_4212_8095_ee53u64, 0x43b1_5312_06c3_2bebu64].update(0, 0x3b6b_e349_48a7_896fu64) =~= seq![0x3b6b_e349_48a7_896fu64, 0xf266_4212_8095_ee53u64, 0x43b1_5312_06c3_2bebu64]);
    assert(expand_state(key, 10) == (0x6042_36be_5c10_9d7fu64, seq![0x3b6b_e349_48a7_896fu64, 0xf266_4212_8095_ee53u64, 0x43b1_5312_06c3_2bebu64]));
    assert(seq![0x3b6b_e349_48a7_896fu64, 0xf266_4212_8095_ee53u64, 0x43b1_5312_06c3_2bebu64].update(1, 0xb434_9d00_6e91_3367u64) =~= seq![0x3b6b_e349_48a7_896fu64, 0xb434_9d00_6e91_3367u64, 0x43b1_5312_06c3_2bebu64]);
    assert(expand_state(key, 11) == (0xb625_28f2_8e15_d89cu64, seq![0x3b6b_e349_48a7_896fu64, 0xb434_9d00_6e91_3367u64, 0x43b1_5312_06c3_2bebu64]));
}

proof fn lemma_test_schedule_2()
    requires
        expand_state(TEST_KEY@, 11) == (0xb625_28f2_8e15_d89cu64, seq![0x3b6b_e349_48a7_896fu64, 0xb434_9d00_6e91_3367u64, 0x43b1_5312_06c3_2bebu64]),
    ensures
        round_key(TEST_KEY@, 12) == 0x1041_9dd1_d0b2_5f29,
        round_key(TEST_KEY@, 13) == 0xfd71_e73b_9c69_fff6,
        round_key(TEST_KEY@, 14) == 0x8ea9_2204_7f97_6e93,
        round_key(TEST_KEY@, 15) == 0x2e03_9afd_398c_ffbc,
        round_key(TEST_KEY@, 16) == 0x9c9f_cfef_22c1_072c,
        round_key(TEST_KEY@, 17) == 0x25fa_8973_ed55_e6c9,
        round_key(TEST_KEY@, 18) == 0x6981_9861_a6b4_280c,
        round_key(TEST_KEY@, 19) == 0x7b62_d874_9803_8f77,
        round_key(TEST_KEY@, 20) == 0xf235_1ece_62e2_96fe,
        round_key(TEST_KEY@, 21) == 0xa6d3_82d1_76ba_05ff,
        round_key(TEST_KEY@, 22) == 0x8d96_e667_45b7_8726,
        expand_state(TEST_KEY@, 22) == (0x8d96_e667_45b7_8726u64, seq![0xbb0a_f0ec_f067_a8dbu64, 0x2923_dd6a_a2fe_ed45u64, 0x377b_74a2_61ae_b208u64]),
{
    lemma_test_key_rounds();
    let key = TEST_KEY@;
    assert(seq![0x3b6b_e349_48a7_896fu64, 0xb434_9d00_6e91_3367u64, 0x43b1_5312_06c3_2bebu64].update(2, 0xa168_da45_a01c_9bccu64) =~= seq![0x3b6b_e349_48a7_896fu64, 0xb434_9d00_6e91_3367u64, 0xa168_da45_a01c_9bccu64]);
    assert(expand_state(key, 12) == (0x1041_9dd1_d0b2_5f29u64, seq![0x3b6b_e349_48a7_896fu64, 0xb434_9d00_6e91_3367u64, 0xa168_da45_a01c_9bccu64]));
    assert(seq![0x3b6b_e349_48a7_896fu64, 0xb434_9d00_6e91_3367u64, 0xa168_da45_a01c_9bccu64].update(0, 0x7f7d_09b5_19fb_06beu64) =~= seq![0x7f7d_09b5_19fb_06beu64, 0xb434_9d00_6e91_3367u64, 0xa168_da45_a01c_9bccu64]);
    assert(expand_state(key, 13) == (0xfd71_e73b_9c69_fff6u64, seq![0x7f7d_09b5_19fb_06beu64, 0xb434_9d00_6e91_3367u64, 0xa168_da45_a01c_9bccu64]));
    assert(seq![0x7f7d_09b5_19fb_06beu64, 0xb434_9d00_6e91_3367u64, 0xa168_da45_a01c_9bccu64].update(1, 0x6526_1bd8_9cd8_9124u64) =~= seq![0x7f7d_09b5_19fb_06beu64, 0x6526_1bd8_9cd8_9124u64, 0xa168_da45_a01c_9bccu64]);
    assert(expand_state(key, 14) == (0x8ea9_2204_7f97_6e93u64, seq![0x7f7d_09b5_19fb_06beu64, 0x6526_1bd8_9cd8_9124u64, 0xa168_da45_a01c_9bccu64]));
    assert(seq![0x7f7d_09b5_19fb_06beu64, 0x6526_1bd8_9cd8_9124u64, 0xa168_da45_a01c_9bccu64].update(2, 0x5b4a_8ade_c537_8b20u64) =~= seq![0x7f7d_09b5_19fb_06beu64, 0x6526_1bd8_9cd8_9124u64, 0x5b4a_8ade_c537_8b20u64]);
    assert(expand_state(key, 15) == (0x2e03_9afd_398c_ffbcu64, seq![0x7f7d_09b5_19fb_06beu64, 0x6526_1bd8_9cd8_9124u64, 0x5b4a_8ade_c537_8b20u64]));
    assert(seq![0x7f7d_09b5_19fb_06beu64, 0x6526_1bd8_9cd8_9124u64, 0x5b4a_8ade_c537_8b20u64].update(0, 0xec83_1806_eea6_facdu64) =~= seq![0xec83_1806_eea6_facdu64, 0x6526_1bd8_9cd8_9124u64, 0x5b4a_8ade_c537_8b20u64]);
    assert(expand_state(key, 16) == (0x9c9f_cfef_22c1_072cu64, seq![0xec83_1806_eea6_facdu64, 0x6526_1bd8_9cd8_9124u64, 0x5b4a_8ade_c537_8b20u64]));
    assert(seq![0xec83_1806_eea6_facdu64, 0x6526_1bd8_9cd8_9124u64, 0x5b4a_8ade_c537_8b20u64].update(1, 0xc104_f60a_fb5d_dfadu64) =~= seq![0xec83_1806_eea6_facdu64, 0xc104_f60a_fb5d_dfadu64, 0x5b4a_8ade_c537_8b20u64]);
    assert(expand_state(key, 17) == (0x25fa_8973_ed55_e6c9u64, seq![0xec83_1806_eea6_facdu64, 0xc104_f60a_fb5d_dfadu64, 0x5b4a_8ade_c537_8b20u64]));
    assert(seq![0xec83_1806_eea6_facdu64, 0xc104_f60a_fb5d_dfadu64, 0x5b4a_8ade_c537_8b20u64].update(2, 0x4655_d3fe_cc1b_1e45u64) =~= seq![0xec83_1806_eea6_facdu64, 0xc104_f60a_fb5d_dfadu64, 0x4655_d3fe_cc1b_1e45u64]);
    assert(expand_state(key, 18) == (0x6981_9861_a6b4_280cu64, seq![0xec83_1806_eea6_facdu64, 0xc104_f60a_fb5d_dfadu64, 0x4655_d3fe_cc1b_1e45u64]));
    assert(seq![0xec83_1806_eea6_facdu64, 0xc104_f60a_fb5d_dfadu64, 0x4655_d3fe_cc1b_1e45u64].update(0, 0x376e_1b79_ada2_cf14u64) =~= seq![0x376e_1b79_ada2_cf14u64, 0xc104_f60a_fb5d_dfadu64, 0x4655_d3fe_cc1b_1e45u64]);
    assert(expand_state(key, 19) == (0x7b62_d874_9803_8f77u64, seq![0x376e_1b79_ada2_cf14u64, 0xc104_f60a_fb5d_dfadu64, 0x4655_d3fe_cc1b_1e45u64]));
    assert(seq![0x376e_1b79_ada2_cf14u64, 0xc104_f60a_fb5d_dfadu64, 0x4655_d3fe_cc1b_1e45u64].update(1, 0x2923_dd6a_a2fe_ed45u64) =~= seq![0x376e_1b79_ada2_cf14u64, 0x2923_dd6a_a2fe_ed45u64, 0x4655_d3fe_cc1b_1e45u64]);
    assert(expand_state(key, 20) == (0xf235_1ece_62e2_96feu64, seq![0x376e_1b79_ada2_cf14u64, 0x2923_dd6a_a2fe_ed45u64, 0x4655_d3fe_cc1b_1e45u64]));
    assert(seq![0x376e_1b79_ada2_cf14u64, 0x2923_dd6a_a2fe_ed45u64, 0x4655_d3fe_cc1b_1e45u64].update(2, 0x377b_74a2_61ae_b208u64) =~= seq![0x376e_1b79_ada2_cf14u64, 0x2923_dd6a_a2fe_ed45u64, 0x377b_74a2_61ae_b208u64]);
    assert(expand_state(key, 21) == (0xa6d3_82d1_76ba_05ffu64, seq![0x376e_1b79_ada2_cf14u64, 0x2923_dd6a_a2fe_ed45u64, 0x377b_74a2_61ae_b208u64]));
    assert(seq![0x376e_1b79_ada2_cf14u64, 0x2923_dd6a_a2fe_ed45u64, 0x377b_74a2_61ae_b208u64].update(0, 0xbb0a_f0ec_f067_a8dbu64) =~= seq![0xbb0a_f0ec_f067_a8dbu64, 0x2923_dd6a_a2fe_ed45u64, 0x377b_74a2_61ae_b208u64]);
    assert(expand_state(key, 22) == (0x8d96_e667_45b7_8726u64, seq![0xbb0a_f0ec_f067_a8dbu64, 0x2923_dd6a_a2fe_ed45u64, 0x377b_74a2_61ae_b208u64]));
}

proof fn lemma_test_schedule_3()
    requires
        expand_state(TEST_KEY@, 22) == (0x8d96_e667_45b7_8726u64, seq![0xbb0a_f0ec_f067_a8dbu64, 0x2923_dd6a_a2fe_ed45u64, 0x377b_74a2_61ae_b208u64]),
    ensures
        round_key(TEST_KEY@, 23) == 0xbe77_397e_9de6_bf31,
        round_key(TEST_KEY@, 24) == 0x3517_7f07_af7d_9479,
        round_key(TEST_KEY@, 25) == 0xb869_71c5_e781_5ff0,
        round_key(TEST_KEY@, 26) == 0x7d77_bfff_103b_45ea,
        round_key(TEST_KEY@, 27) == 0x9983_914c_82a1_a11e,
        round_key(TEST_KEY@, 28) == 0x1e88_e9b2_6e33_07f5,
        round_key(TEST_KEY@, 29) == 0x7a00_6877_4fc7_061b,
        round_key(TEST_KEY@, 30) == 0x1771_e55c_7df2_b16f,
        round_key(TEST_KEY@, 31) == 0xa2cb_5323_bbf8_6418,
        round_key(TEST_KEY@, 32) == 0x4003_0354_7ff5_e38b,
        round_key(TEST_KEY@, 33) == 0xf4d2_6f58_9a56_b276,
        expand_state(TEST_KEY@, 33) == (0xf4d2_6f58_9a56_b276u64, seq![0x1944_79c0_546d_ef60u64, 0x5659_9a49_a036_c34eu64, 0xf4ca_75fb_65f9_ae2cu64]),
{
    lemma_test_key_rounds();
    let key = TEST_KEY@;
    assert(seq![0xbb0a_f0ec_f067_a8dbu64, 0x2923_dd6a_a2fe_ed45u64, 0x377b_74a2_61ae_b208u64].update(1, 0xd2c0_0a44_b05a_8605u64) =~= seq![0xbb0a_f0ec_f067_a8dbu64, 0xd2c0_0a44_b05a_8605u64, 0x377b_74a2_61ae_b208u64]);
    assert(expand_state(key, 23) == (0xbe77_397e_9de6_bf31u64, seq![0xbb0a_f0ec_f067_a8dbu64, 0xd2c0_0a44_b05a_8605u64, 0x377b_74a2_61ae_b208u64]));
    assert(seq![0xbb0a_f0ec_f067_a8dbu64, 0xd2c0_0a44_b05a_8605u64, 0x377b_74a2_61ae_b208u64].update(2, 0xc6ae_b4f3_4048_6df4u64) =~= seq![0xbb0a_f0ec_f067_a8dbu64, 0xd2c0_0a44_b05a_8605u64, 0xc6ae_b4f3_4048_6df4u64]);
    assert(expand_state(key, 24) == (0x3517_7f07_af7d_9479u64, seq![0xbb0a_f0ec_f067_a8dbu64, 0xd2c0_0a44_b05a_8605u64, 0xc6ae_b4f3_4048_6df4u64]));
    assert(seq![0xbb0a_f0ec_f067_a8dbu64, 0xd2c0_0a44_b05a_8605u64, 0xc6ae_b4f3_4048_6df4u64].update(0, 0x10d2_89f8_9c6d_fc39u64) =~= seq![0x10d2_89f8_9c6d_fc39u64, 0xd2c0_0a44_b05a_8605u64, 0xc6ae_b4f3_4048_6df4u64]);
    assert(expand_state(key, 25) == (0xb869_71c5_e781_5ff0u64, seq![0x10d2_89f8_9c6d_fc39u64, 0xd2c0_0a44_b05a_8605u64, 0xc6ae_b4f3_4048_6df4u64]));
    assert(seq![0x10d2_89f8_9c6d_fc39u64, 0xd2c0_0a44_b05a_8605u64, 0xc6ae_b4f3_4048_6df4u64].update(1, 0xbe3c_31d0_2c31_ba6fu64) =~= seq![0x10d2_89f8_9c6d_fc39u64, 0xbe3c_31d0_2c31_ba6fu64, 0xc6ae_b4f3_4048_6df4u64]);
    assert(expand_state(key, 26) == (0x7d77_bfff_103b_45eau64, seq![0x10d2_89f8_9c6d_fc39u64, 0xbe3c_31d0_2c31_ba6fu64, 0xc6ae_b4f3_4048_6df4u64]));
    assert(seq![0x10d2_89f8_9c6d_fc39u64, 0xbe3c_31d0_2c31_ba6fu64, 0xc6ae_b4f3_4048_6df4u64].update(2, 0x723e_6eb4_037b_8e4du64) =~= seq![0x10d2_89f8_9c6d_fc39u64, 0xbe3c_31d0_2c31_ba6fu64, 0x723e_6eb4_037b_8e4du64]);
    assert(expand_state(key, 27) == (0x9983_914c_82a1_a11eu64, seq![0x10d2_89f8_9c6d_fc39u64, 0xbe3c_31d0_2c31_ba6fu64, 0x723e_6eb4_037b_8e4du64]));
    assert(seq![0x10d2_89f8_9c6d_fc39u64, 0xbe3c_31d0_2c31_ba6fu64, 0x723e_6eb4_037b_8e4du64].update(0, 0xd294_63d6_7b3e_0f01u64) =~= seq![0xd294_63d6_7b3e_0f01u64, 0xbe3c_31d0_2c31_ba6fu64, 0x723e_6eb4_037b_8e4du64]);
    assert(expand_state(key, 28) == (0x1e88_e9b2_6e33_07f5u64, seq![0xd294_63d6_7b3e_0f01u64, 0xbe3c_31d0_2c31_ba6fu64, 0x723e_6eb4_037b_8e4du64]));
    assert(seq![0xd294_63d6_7b3e_0f01u64, 0xbe3c_31d0_2c31_ba6fu64, 0x723e_6eb4_037b_8e4du64].update(1, 0x8e47_25e4_3e5f_39b3u64) =~= seq![0xd294_63d6_7b3e_0f01u64, 0x8e47_25e4_3e5f_39b3u64, 0x723e_6eb4_037b_8e4du64]);
    assert(expand_state(key, 29) == (0x7a00_6877_4fc7_061bu64, seq![0xd294_63d6_7b3e_0f01u64, 0x8e47_25e4_3e5f_39b3u64, 0x723e_6eb4_037b_8e4du64]));
    assert(seq![0xd294_63d6_7b3e_0f01u64, 0x8e47_25e4_3e5f_39b3u64, 0x723e_6eb4_037b_8e4du64].update(2, 0xc772_a6e6_03ca_81b4u64) =~= seq![0xd294_63d6_7b3e_0f01u64, 0x8e47_25e4_3e5f_39b3u64, 0xc772_a6e6_03ca_81b4u64]);
    assert(expand_state(key, 30) == (0x1771_e55c_7df2_b16fu64, seq![0xd294_63d6_7b3e_0f01u64, 0x8e47_25e4_3e5f_39b3u64, 0xc772_a6e6_03ca_81b4u64]));
    assert(seq![0xd294_63d6_7b3e_0f01u64, 0x8e47_25e4_3e5f_39b3u64, 0xc772_a6e6_03ca_81b4u64].update(0, 0x1944_79c0_546d_ef60u64) =~= seq![0x1944_79c0_546d_ef60u64, 0x8e47_25e4_3e5f_39b3u64, 0xc772_a6e6_03ca_81b4u64]);
    assert(expand_state(key, 31) == (0xa2cb_5323_bbf8_6418u64, seq![0x1944_79c0_546d_ef60u64, 0x8e47_25e4_3e5f_39b3u64, 0xc772_a6e6_03ca_81b4u64]));
    assert(seq![0x1944_79c0_546d_ef60u64, 0x8e47_25e4_3e5f_39b3u64, 0xc772_a6e6_03ca_81b4u64].update(1, 0x5659_9a49_a036_c34eu64) =~= seq![0x1944_79c0_546d_ef60u64, 0x5659_9a49_a036_c34eu64, 0xc772_a6e6_03ca_81b4u64]);
    assert(expand_state(key, 32) == (0x4003_0354_7ff5_e38bu64, seq![0x1944_79c0_546d_ef60u64, 0x5659_9a49_a036_c34eu64, 0xc772_a6e6_03ca_81b4u64]));
    assert(seq![0x1944_79c0_546d_ef60u64, 0x5659_9a49_a036_c34eu64, 0xc772_a6e6_03ca_81b4u64].update(2, 0xf4ca_75fb_65f9_ae2cu64) =~= seq![0x1944_79c0_546d_ef60u64, 0x5659_9a49_a036_c34eu64, 0xf4ca_75fb_65f9_ae2cu64]);
    assert(expand_state(key, 33) == (0xf4d2_6f58_9a56_b276u64, seq![0x1944_79c0_546d_ef60u64, 0x5659_9a49_a036_c34eu64, 0xf4ca_75fb_65f9_ae2cu64]));
}

/// The test key expands to the test schedule.
pub proof fn lemma_test_schedule()
    ensures
        key_schedule(TEST_KEY@) == test_schedule(),
{
    lemma_test_schedule_1();
    lemma_test_schedule_2();
    lemma_test_schedule_3();
    assert(key_schedule(TEST_KEY@) =~= test_schedule());
}

proof fn lemma_test_encrypt_1()
    ensures
        encrypt_state(0x6573_6f68_7420_6e49, 0x202e_7265_6e6f_6f70, test_schedule(), 12) == (0x7e08_f404_946c_3b30u64, 0xae60_1307_4183_078bu64),
{
    lemma_test_block_rounds();
    let s = test_schedule();
    assert(encrypt_state(0x6573_6f68_7420_6e49, 0x202e_7265_6e6f_6f70, s, 0) == (0x6573_6f68_7420_6e49u64, 0x202e_7265_6e6f_6f70u64));
    assert(s[0] == 0x0706_0504_0302_0100);
    assert(encrypt_state(0x6573_6f68_7420_6e49, 0x202e_7265_6e6f_6f70, s, 1) == (0x6e95_e0d0_d5e1_8edeu64, 0x6fe6_73fb_a69a_f55fu64));
    assert(s[1] == 0x3725_3b31_171d_0309);
    assert(encrypt_state(0x6573_6f68_7420_6e49, 0x202e_7265_6e6f_6f70, s, 2) == (0x7970_32ed_606d_d5e4u64, 0x0643_ad30_54ba_7f1fu64));
    assert(s[2] == 0xfe15_88ce_93d8_0d52);
    assert(encrypt_state(0x6573_6f68_7420_6e49, 0x202e_7265_6e6f_6f70, s, 3) == (0x14a8_95ad_d1c2_e1a6u64, 0x26b5_fc2f_7411_195eu64));
    assert(s[3] == 0xe698_e09f_3133_4dfe);
    assert(encrypt_state(0x6573_6f68_7420_6e49, 0x202e_7265_6e6f_6f70, s, 4) == (0x2a52_445a_10d1_91c1u64, 0x1ffd_a521_b059_5b30u64));
    assert(s[4] == 0xdb60_f14b_cbd8_34fd);
    assert(encrypt_state(0x6573_6f68_7420_6e49, 0x202e_7265_6e6f_6f70, s, 5) == (0x3a47_062d_c1b2_183cu64, 0xc5aa_2f20_4378_c1bcu64));
    assert(s[5] == 0x2daf_a7c3_4cc2_c2f8);
    assert(encrypt_state(0x6573_6f68_7420_6e49, 0x202e_7265_6e6f_6f70, s, 6) == (0x2c4b_d1e5_3df8_b12cu64, 0x011a_a8e7_263e_bccau64));
    assert(s[6] == 0xfbb8_e270_5e64_a1db);
    assert(encrypt_state(0x6573_6f68_7420_6e49, 0x202e_7265_6e6f_6f70, s, 7) == (0xd6fe_16c9_5518_14a0u64, 0xde2b_51f0_64ed_f2f0u64));
    assert(s[7] == 0xdb6f_99e4_e383_eaef);
    assert(encrypt_state(0x6573_6f68_7420_6e49, 0x202e_7265_6e6f_6f70, s, 8) == (0xa46d_c9e3_cdc0_e1ebu64, 0x5537_4660_eaaf_766du64));
    assert(s[8] == 0x291a_8d35_9c8a_b92d);
    assert(encrypt_state(0x6573_6f68_7420_6e49, 0x202e_7265_6e6f_6f70, s, 9) == (0x69c1_391f_52f7_8e63u64, 0xc07b_0a18_078c_3d09u64));
    assert(s[9] == 0x0b65_3abe_e296_e282);
    assert(encrypt_state(0x6573_6f68_7420_6e49, 0x202e_7265_6e6f_6f70, s, 10) == (0x2881_f1ef_c449_d615u64, 0x2b59_a12f_f828_3e5bu64));
    assert(s[10] == 0x6042_36be_5c10_9d7f);
    assert(encrypt_state(0x6573_6f68_7420_6e49, 0x202e_7265_6e6f_6f70, s, 11) == (0x20c0_159f_bbfc_154eu64, 0x7a0d_1ce0_7abd_e797u64));
    assert(s[11] == 0xb625_28f2_8e15_d89c);
    assert(encrypt_state(0x6573_6f68_7420_6e49, 0x202e_7265_6e6f_6f70, s, 12) == (0x7e08_f404_946c_3b30u64, 0xae60_1307_4183_078bu64));
}

proof fn lemma_test_encrypt_2()
    requires
        encrypt_state(0x6573_6f68_7420_6e49, 0x202e_7265_6e6f_6f70, test_schedule(), 12) == (0x7e08_f404_946c_3b30u64, 0xae60_1307_4183_078bu64),
    ensures
        encrypt_state(0x6573_6f68_7420_6e49, 0x202e_7265_6e6f_6f70, test_schedule(), 23) == (0x477c_5f6d_3163_593eu64, 0x84db_fc02_92f3_9f58u64),
{
    lemma_test_block_rounds();
    let s = test_schedule();
    assert(s[12] == 0x1041_9dd1_d0b2_5f29);
    assert(encrypt_state(0x6573_6f68_7420_6e49, 0x202e_7265_6e6f_6f70, s, 13) == (0xce9f_862a_96a5_2cefu64, 0xbd9f_1e10_9abd_10b2u64));
    assert(s[13] == 0xfd71_e73b_9c69_fff6);
    assert(encrypt_state(0x6573_6f68_7420_6e49, 0x202e_7265_6e6f_6f70, s, 14) == (0x501c_5aad_593a_4a28u64, 0xbce4_aa29_8cd2_cfbdu64));
    assert(s[14] == 0x8ea9_2204_7f97_6e93);
    assert(encrypt_state(0x6573_6f68_7420_6e49, 0x202e_7265_6e6f_6f70, s, 15) == (0x6b9d_e480_45bb_6494u64, 0x8cb8_b5cc_232d_1979u64));
    assert(s[15] == 0x2e03_9afd_398c_ffbc);
    assert(encrypt_state(0x6573_6f68_7420_6e49, 0x202e_7265_6e6f_6f70, s, 16) == (0x0f27_c94d_9afe_2b61u64, 0x6ae2_672c_8396_e0adu64));
    assert(s[16] == 0x9c9f_cfef_22c1_072c);
    assert(encrypt_state(0x6573_6f68_7420_6e49, 0x202e_7265_6e6f_6f70, s, 17) == (0x576e_411a_f3f0_d9f4u64, 0x007d_787e_ef47_dc9fu64));
    assert(s[17] == 0x25fa_8973_ed55_e6c9);
    assert(encrypt_state(0x6573_6f68_7420_6e49, 0x202e_7265_6e6f_6f70, s, 18) == (0xd12e_6fb3_e76e_2bb1u64, 0xd2c5_ac44_9d50_cf49u64));
    assert(s[18] == 0x6981_9861_a6b4_280c);
    assert(encrypt_state(0x6573_6f68_7420_6e49, 0x202e_7265_6e6f_6f70, s, 19) == (0xed17_42d5_f78c_1578u64, 0x7b3a_20f1_1d0a_6f36u64));
    assert(s[19] == 0x7b62_d874_9803_8f77);
    assert(encrypt_state(0x6573_6f68_7420_6e49, 0x202e_7265_6e6f_6f70, s, 20) == (0x8f45_e047_6b02_743cu64, 0x5694_e7cf_8351_0d8fu64));
    assert(s[20] == 0xf235_1ece_62e2_96fe);
    assert(encrypt_state(0x6573_6f68_7420_6e49, 0x202e_7265_6e6f_6f70, s, 21) == (0x6111_3361_a85e_86fdu64, 0xd5b6_0d1d_b2d6_ea87u64));
    assert(s[21] == 0xa6d3_82d1_76ba_05ff);
    assert(encrypt_state(0x6573_6f68_7420_6e49, 0x202e_7265_6e6f_6f70, s, 22) == (0x75c4_9c80_62c5_4cf2u64, 0xd874_f46d_f472_18ccu64));
    assert(s[22] == 0x8d96_e667_45b7_8726);
    assert(encrypt_state(0x6573_6f68_7420_6e49, 0x202e_7265_6e6f_6f70, s, 23) == (0x477c_5f6d_3163_593eu64, 0x84db_fc02_92f3_9f58u64));
}

proof fn lemma_test_encrypt_3()
    requires
        encrypt_state(0x6573_6f68_7420_6e49, 0x202e_7265_6e6f_6f70, test_schedule(), 23) == (0x477c_5f6d_3163_593eu64, 0x84db_fc02_92f3_9f58u64),
    ensures
        encrypt_state(0x6573_6f68_7420_6e49, 0x202e_7265_6e6f_6f70, test_schedule(), 34) == (0x4109_0104_05c0_f53eu64, 0x4eee_b48d_9c18_8f43u64),
{
    lemma_test_block_rounds();
    let s = test_schedule();
    assert(s[23] == 0xbe77_397e_9de6_bf31);
    assert(encrypt_state(0x6573_6f68_7420_6e49, 0x202e_7265_6e6f_6f70, s, 24) == (0x7d54_411c_9dc3_bd80u64, 0x5b8b_a108_0a5f_4744u64));
    assert(s[24] == 0x3517_7f07_af7d_9479);
    assert(encrypt_state(0x6573_6f68_7420_6e49, 0x202e_7265_6e6f_6f70, s, 25) == (0xe91f_8a4e_8980_9f78u64, 0x3542_820e_db7a_a55au64));
    assert(s[25] == 0xb869_71c5_e781_5ff0);
    assert(encrypt_state(0x6573_6f68_7420_6e49, 0x202e_7265_6e6f_6f70, s, 26) == (0x1642_d05c_cd85_7a09u64, 0xbc56_c02a_1650_50d8u64));
    assert(s[26] == 0x7d77_bfff_103b_45ea);
    assert(encrypt_state(0x6573_6f68_7420_6e49, 0x202e_7265_6e6f_6f70, s, 27) == (0xb81a_bd05_6326_93b8u64, 0x5aac_bc55_d1a4_157du64));
    assert(s[27] == 0x9983_914c_82a1_a11e);
    assert(encrypt_state(0x6573_6f68_7420_6e49, 0x202e_7265_6e6f_6f70, s, 28) == (0x8ae7_465e_55a6_9d0eu64, 0x5f82_a4f0_d886_36e4u64));
    assert(s[28] == 0x1e88_e9b2_6e33_07f5);
    assert(encrypt_state(0x6573_6f68_7420_6e49, 0x202e_7265_6e6f_6f70, s, 29) == (0x7085_6585_58e8_da74u64, 0x8c90_4203_9cd9_6d56u64));
    assert(s[29] == 0x7a00_6877_4fc7_061b);
    assert(encrypt_state(0x6573_6f68_7420_6e49, 0x202e_7265_6e6f_6f70, s, 30) == (0x7b00_af1e_6df5_502bu64, 0x1f82_bf02_8b3e_3a9fu64));
    assert(s[30] == 0x1771_e55c_7df2_b16f);
    assert(encrypt_state(0x6573_6f68_7420_6e49, 0x202e_7265_6e6f_6f70, s, 31) == (0x5d8c_5aed_d45e_9e80u64, 0xa199_a2f9_8daf_4a78u64));
    assert(s[31] == 0xa2cb_5323_bbf8_6418);
    assert(encrypt_state(0x6573_6f68_7420_6e49, 0x202e_7265_6e6f_6f70, s, 32) == (0x833c_7c77_c07b_cd0eu64, 0x8ff1_6bbb_ad01_9ecbu64));
    assert(s[32] == 0x4003_0354_7ff5_e38b);
    assert(encrypt_state(0x6573_6f68_7420_6e49, 0x202e_7265_6e6f_6f70, s, 33) == (0xde77_ab6c_5b37_f913u64, 0xa1fc_f6b1_333b_0f4fu64));
    assert(s[33] == 0xf4d2_6f58_9a56_b276);
    assert(encrypt_state(0x6573_6f68_7420_6e49, 0x202e_7265_6e6f_6f70, s, 34) == (0x4109_0104_05c0_f53eu64, 0x4eee_b48d_9c18_8f43u64));
}

/// The test block encrypts to the known answer under the test schedule.
pub proof fn lemma_test_encrypt()
    ensures
        encrypt_block(TEST_PLAINTEXT@, test_schedule()) == TEST_CIPHERTEXT@,
{
    lemma_test_encrypt_1();
    lemma_test_encrypt_2();
    lemma_test_encrypt_3();
    assert(encrypt_block(TEST_PLAINTEXT@, test_schedule()) =~= TEST_CIPHERTEXT@);
}

/// Under the test key, the test block encrypts to the known answer.
pub proof fn lemma_known_answer()
    ensures
        encrypt_block(TEST_PLAINTEXT@, key_schedule(TEST_KEY@)) == TEST_CIPHERTEXT@,
{
    lemma_test_schedule();
    lemma_test_encrypt();
}

} // verus!
