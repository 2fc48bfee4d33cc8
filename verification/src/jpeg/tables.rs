//! Quantization and Huffman tables (quality 80, standard codes).

use vstd::prelude::*;

verus! {

/// Luma quantization steps (quality 80), in natural order.
pub const QUANT_L: [u8; 64] = [
    6, 4, 4, 6, 10, 16, 20, 24, 5, 5, 6, 8, 10, 23, 24, 22, 6, 5, 6, 10, 16, 23, 28, 22, 6, 7,
    9, 12, 20, 35, 32, 25, 7, 9, 15, 22, 27, 44, 41, 31, 10, 14, 22, 26, 32, 42, 45, 37, 20,
    26, 31, 35, 41, 48, 48, 40, 29, 37, 38, 39, 45, 40, 41, 40,
];

/// Chroma quantization steps (quality 80), in natural order.
pub const QUANT_C: [u8; 64] = [
    7, 7, 10, 19, 40, 40, 40, 40, 7, 8, 10, 26, 40, 40, 40, 40, 10, 10, 22, 40, 40, 40, 40, 40,
    19, 26, 40, 40, 40, 40, 40, 40, 40, 40, 40, 40, 40, 40, 40, 40, 40, 40, 40, 40, 40, 40, 40,
    40, 40, 40, 40, 40, 40, 40, 40, 40, 40, 40, 40, 40, 40, 40, 40, 40,
];

/// Natural index of the `k`-th coefficient in zigzag order.
pub const ZIGZAG: [u8; 64] = [
    0, 1, 8, 16, 9, 2, 3, 10, 17, 24, 32, 25, 18, 11, 4, 5, 12, 19, 26, 33, 40, 48, 41, 34, 27,
    20, 13, 6, 7, 14, 21, 28, 35, 42, 49, 56, 57, 50, 43, 36, 29, 22, 15, 23, 30, 37, 44, 51,
    58, 59, 52, 45, 38, 31, 39, 46, 53, 60, 61, 54, 47, 55, 62, 63,
];

/// Luma DC codes: `(code, length)` by magnitude category.
pub const DC_L: [(u16, u8); 12] = [
    (0, 2), (2, 3), (3, 3), (4, 3), (5, 3), (6, 3), (14, 4), (30, 5), (62, 6), (126, 7),
    (254, 8), (510, 9),
];

/// Chroma DC codes: `(code, length)` by magnitude category.
pub const DC_C: [(u16, u8); 12] = [
    (0, 2), (1, 2), (2, 2), (6, 3), (14, 4), (30, 5), (62, 6), (126, 7), (254, 8), (510, 9),
    (1022, 10), (2046, 11),
];

/// Luma AC codes: `(code, length)` by `run << 4 | category`. A length of 0 marks a symbol
/// without a code.
pub const AC_L: [(u16, u8); 251] = [
    (10, 4), (0, 2), (1, 2), (4, 3), (11, 4), (26, 5), (120, 7), (248, 8), (1014, 10),
    (65410, 16), (65411, 16), (0, 0), (0, 0), (0, 0), (0, 0), (0, 0), (0, 0), (12, 4), (27, 5),
    (121, 7), (502, 9), (2038, 11), (65412, 16), (65413, 16), (65414, 16), (65415, 16),
    (65416, 16), (0, 0), (0, 0), (0, 0), (0, 0), (0, 0), (0, 0), (28, 5), (249, 8), (1015, 10),
    (4084, 12), (65417, 16), (65418, 16), (65419, 16), (65420, 16), (65421, 16), (65422, 16),
    (0, 0), (0, 0), (0, 0), (0, 0), (0, 0), (0, 0), (58, 6), (503, 9), (4085, 12), (65423, 16),
    (65424, 16), (65425, 16), (65426, 16), (65427, 16), (65428, 16), (65429, 16), (0, 0),
    (0, 0), (0, 0), (0, 0), (0, 0), (0, 0), (59, 6), (1016, 10), (65430, 16), (65431, 16),
    (65432, 16), (65433, 16), (65434, 16), (65435, 16), (65436, 16), (65437, 16), (0, 0),
    (0, 0), (0, 0), (0, 0), (0, 0), (0, 0), (122, 7), (2039, 11), (65438, 16), (65439, 16),
    (65440, 16), (65441, 16), (65442, 16), (65443, 16), (65444, 16), (65445, 16), (0, 0),
    (0, 0), (0, 0), (0, 0), (0, 0), (0, 0), (123, 7), (4086, 12), (65446, 16), (65447, 16),
    (65448, 16), (65449, 16), (65450, 16), (65451, 16), (65452, 16), (65453, 16), (0, 0),
    (0, 0), (0, 0), (0, 0), (0, 0), (0, 0), (250, 8), (4087, 12), (65454, 16), (65455, 16),
    (65456, 16), (65457, 16), (65458, 16), (65459, 16), (65460, 16), (65461, 16), (0, 0),
    (0, 0), (0, 0), (0, 0), (0, 0), (0, 0), (504, 9), (32704, 15), (65462, 16), (65463, 16),
    (65464, 16), (65465, 16), (65466, 16), (65467, 16), (65468, 16), (65469, 16), (0, 0),
    (0, 0), (0, 0), (0, 0), (0, 0), (0, 0), (505, 9), (65470, 16), (65471, 16), (65472, 16),
    (65473, 16), (65474, 16), (65475, 16), (65476, 16), (65477, 16), (65478, 16), (0, 0),
    (0, 0), (0, 0), (0, 0), (0, 0), (0, 0), (506, 9), (65479, 16), (65480, 16), (65481, 16),
    (65482, 16), (65483, 16), (65484, 16), (65485, 16), (65486, 16), (65487, 16), (0, 0),
    (0, 0), (0, 0), (0, 0), (0, 0), (0, 0), (1017, 10), (65488, 16), (65489, 16), (65490, 16),
    (65491, 16), (65492, 16), (65493, 16), (65494, 16), (65495, 16), (65496, 16), (0, 0),
    (0, 0), (0, 0), (0, 0), (0, 0), (0, 0), (1018, 10), (65497, 16), (65498, 16), (65499, 16),
    (65500, 16), (65501, 16), (65502, 16), (65503, 16), (65504, 16), (65505, 16), (0, 0),
    (0, 0), (0, 0), (0, 0), (0, 0), (0, 0), (2040, 11), (65506, 16), (65507, 16), (65508, 16),
    (65509, 16), (65510, 16), (65511, 16), (65512, 16), (65513, 16), (65514, 16), (0, 0),
    (0, 0), (0, 0), (0, 0), (0, 0), (0, 0), (65515, 16), (65516, 16), (65517, 16), (65518, 16),
    (65519, 16), (65520, 16), (65521, 16), (65522, 16), (65523, 16), (65524, 16), (0, 0),
    (0, 0), (0, 0), (0, 0), (0, 0), (2041, 11), (65525, 16), (65526, 16), (65527, 16),
    (65528, 16), (65529, 16), (65530, 16), (65531, 16), (65532, 16), (65533, 16), (65534, 16),
];

/// Chroma AC codes, laid out as [`AC_L`].
pub const AC_C: [(u16, u8); 251] = [
    (0, 2), (1, 2), (4, 3), (10, 4), (24, 5), (25, 5), (56, 6), (120, 7), (500, 9), (1014, 10),
    (4084, 12), (0, 0), (0, 0), (0, 0), (0, 0), (0, 0), (0, 0), (11, 4), (57, 6), (246, 8),
    (501, 9), (2038, 11), (4085, 12), (65416, 16), (65417, 16), (65418, 16), (65419, 16),
    (0, 0), (0, 0), (0, 0), (0, 0), (0, 0), (0, 0), (26, 5), (247, 8), (1015, 10), (4086, 12),
    (32706, 15), (65420, 16), (65421, 16), (65422, 16), (65423, 16), (65424, 16), (0, 0),
    (0, 0), (0, 0), (0, 0), (0, 0), (0, 0), (27, 5), (248, 8), (1016, 10), (4087, 12),
    (65425, 16), (65426, 16), (65427, 16), (65428, 16), (65429, 16), (65430, 16), (0, 0),
    (0, 0), (0, 0), (0, 0), (0, 0), (0, 0), (58, 6), (502, 9), (65431, 16), (65432, 16),
    (65433, 16), (65434, 16), (65435, 16), (65436, 16), (65437, 16), (65438, 16), (0, 0),
    (0, 0), (0, 0), (0, 0), (0, 0), (0, 0), (59, 6), (1017, 10), (65439, 16), (65440, 16),
    (65441, 16), (65442, 16), (65443, 16), (65444, 16), (65445, 16), (65446, 16), (0, 0),
    (0, 0), (0, 0), (0, 0), (0, 0), (0, 0), (121, 7), (2039, 11), (65447, 16), (65448, 16),
    (65449, 16), (65450, 16), (65451, 16), (65452, 16), (65453, 16), (65454, 16), (0, 0),
    (0, 0), (0, 0), (0, 0), (0, 0), (0, 0), (122, 7), (2040, 11), (65455, 16), (65456, 16),
    (65457, 16), (65458, 16), (65459, 16), (65460, 16), (65461, 16), (65462, 16), (0, 0),
    (0, 0), (0, 0), (0, 0), (0, 0), (0, 0), (249, 8), (65463, 16), (65464, 16), (65465, 16),
    (65466, 16), (65467, 16), (65468, 16), (65469, 16), (65470, 16), (65471, 16), (0, 0),
    (0, 0), (0, 0), (0, 0), (0, 0), (0, 0), (503, 9), (65472, 16), (65473, 16), (65474, 16),
    (65475, 16), (65476, 16), (65477, 16), (65478, 16), (65479, 16), (65480, 16), (0, 0),
    (0, 0), (0, 0), (0, 0), (0, 0), (0, 0), (504, 9), (65481, 16), (65482, 16), (65483, 16),
    (65484, 16), (65485, 16), (65486, 16), (65487, 16), (65488, 16), (65489, 16), (0, 0),
    (0, 0), (0, 0), (0, 0), (0, 0), (0, 0), (505, 9), (65490, 16), (65491, 16), (65492, 16),
    (65493, 16), (65494, 16), (65495, 16), (65496, 16), (65497, 16), (65498, 16), (0, 0),
    (0, 0), (0, 0), (0, 0), (0, 0), (0, 0), (506, 9), (65499, 16), (65500, 16), (65501, 16),
    (65502, 16), (65503, 16), (65504, 16), (65505, 16), (65506, 16), (65507, 16), (0, 0),
    (0, 0), (0, 0), (0, 0), (0, 0), (0, 0), (2041, 11), (65508, 16), (65509, 16), (65510, 16),
    (65511, 16), (65512, 16), (65513, 16), (65514, 16), (65515, 16), (65516, 16), (0, 0),
    (0, 0), (0, 0), (0, 0), (0, 0), (0, 0), (16352, 14), (65517, 16), (65518, 16), (65519, 16),
    (65520, 16), (65521, 16), (65522, 16), (65523, 16), (65524, 16), (65525, 16), (0, 0),
    (0, 0), (0, 0), (0, 0), (0, 0), (1018, 10), (32707, 15), (65526, 16), (65527, 16),
    (65528, 16), (65529, 16), (65530, 16), (65531, 16), (65532, 16), (65533, 16), (65534, 16),
];

/// Luma DC table as announced in the file: number of codes of each length from 1 to 16.
pub const DHT_DC_L_BITS: [u8; 16] = [
    0, 1, 5, 1, 1, 1, 1, 1, 1, 0, 0, 0, 0, 0, 0, 0,
];

/// Luma DC table as announced in the file: symbols in order of their codes.
pub const DHT_DC_L_VAL: [u8; 12] = [
    0, 1, 2, 3, 4, 5, 6, 7, 8, 9, 10, 11,
];

/// Luma AC table: number of codes of each length from 1 to 16.
pub const DHT_AC_L_BITS: [u8; 16] = [
    0, 2, 1, 3, 3, 2, 4, 3, 5, 5, 4, 4, 0, 0, 1, 125,
];

/// Luma AC table: symbols in order of their codes.
pub const DHT_AC_L_VAL: [u8; 162] = [
    1, 2, 3, 0, 4, 17, 5, 18, 33, 49, 65, 6, 19, 81, 97, 7, 34, 113, 20, 50, 129, 145, 161, 8,
    35, 66, 177, 193, 21, 82, 209, 240, 36, 51, 98, 114, 130, 9, 10, 22, 23, 24, 25, 26, 37,
    38, 39, 40, 41, 42, 52, 53, 54, 55, 56, 57, 58, 67, 68, 69, 70, 71, 72, 73, 74, 83, 84, 85,
    86, 87, 88, 89, 90, 99, 100, 101, 102, 103, 104, 105, 106, 115, 116, 117, 118, 119, 120,
    121, 122, 131, 132, 133, 134, 135, 136, 137, 138, 146, 147, 148, 149, 150, 151, 152, 153,
    154, 162, 163, 164, 165, 166, 167, 168, 169, 170, 178, 179, 180, 181, 182, 183, 184, 185,
    186, 194, 195, 196, 197, 198, 199, 200, 201, 202, 210, 211, 212, 213, 214, 215, 216, 217,
    218, 225, 226, 227, 228, 229, 230, 231, 232, 233, 234, 241, 242, 243, 244, 245, 246, 247,
    248, 249, 250,
];

/// Chroma DC table: number of codes of each length from 1 to 16.
pub const DHT_DC_C_BITS: [u8; 16] = [
    0, 3, 1, 1, 1, 1, 1, 1, 1, 1, 1, 0, 0, 0, 0, 0,
];

/// Chroma DC table: symbols in order of their codes.
pub const DHT_DC_C_VAL: [u8; 12] = [
    0, 1, 2, 3, 4, 5, 6, 7, 8, 9, 10, 11,
];

/// Chroma AC table: number of codes of each length from 1 to 16.
pub const DHT_AC_C_BITS: [u8; 16] = [
    0, 2, 1, 2, 4, 4, 3, 4, 7, 5, 4, 4, 0, 1, 2, 119,
];

/// Chroma AC table: symbols in order of their codes.
pub const DHT_AC_C_VAL: [u8; 162] = [
    0, 1, 2, 3, 17, 4, 5, 33, 49, 6, 18, 65, 81, 7, 97, 113, 19, 34, 50, 129, 8, 20, 66, 145,
    161, 177, 193, 9, 35, 51, 82, 240, 21, 98, 114, 209, 10, 22, 36, 52, 225, 37, 241, 23, 24,
    25, 26, 38, 39, 40, 41, 42, 53, 54, 55, 56, 57, 58, 67, 68, 69, 70, 71, 72, 73, 74, 83, 84,
    85, 86, 87, 88, 89, 90, 99, 100, 101, 102, 103, 104, 105, 106, 115, 116, 117, 118, 119,
    120, 121, 122, 130, 131, 132, 133, 134, 135, 136, 137, 138, 146, 147, 148, 149, 150, 151,
    152, 153, 154, 162, 163, 164, 165, 166, 167, 168, 169, 170, 178, 179, 180, 181, 182, 183,
    184, 185, 186, 194, 195, 196, 197, 198, 199, 200, 201, 202, 210, 211, 212, 213, 214, 215,
    216, 217, 218, 226, 227, 228, 229, 230, 231, 232, 233, 234, 242, 243, 244, 245, 246, 247,
    248, 249, 250,
];

/// The luma DC codes.
#[verifier::opaque]
pub open spec fn luma_dc() -> Seq<(u16, u8)> {
    DC_L@
}

/// The luma AC codes.
#[verifier::opaque]
pub open spec fn luma_ac() -> Seq<(u16, u8)> {
    AC_L@
}

/// The chroma DC codes.
#[verifier::opaque]
pub open spec fn chroma_dc() -> Seq<(u16, u8)> {
    DC_C@
}

/// The chroma AC codes.
#[verifier::opaque]
pub open spec fn chroma_ac() -> Seq<(u16, u8)> {
    AC_C@
}

/// The luma quantization steps.
#[verifier::opaque]
pub open spec fn luma_steps() -> Seq<u8> {
    QUANT_L@
}

/// The chroma quantization steps.
#[verifier::opaque]
pub open spec fn chroma_steps() -> Seq<u8> {
    QUANT_C@
}

} // verus!
