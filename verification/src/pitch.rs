//! The arithmetic behind the semitone table: the pitch class that the table
//! gives to a frequency is the one that the logarithm gives, stated in whole
//! numbers by raising both sides to the 24th power.
use vstd::prelude::*;
use vstd::arithmetic::power2::{lemma2_to64, lemma_pow2_adds, lemma_pow2_pos, pow2};
use crate::constants::{A4_MILLIHERTZ, SEMITONE_BOUNDS, TABLE_BASE};
use crate::utils::{pitch_class_of, raised_to_table, semitone_band};

verus! {

/// The 24th power of `x`.
pub open spec fn pow24(x: nat) -> nat {
    let x2 = x * x;
    let x4 = x2 * x2;
    let x8 = x4 * x4;
    let x16 = x8 * x8;
    x8 * x16
}

/// `s` is the number of semitones from A4 to `freq` millihertz, rounded to
/// the nearest: `2^((2 s - 1) / 24) <= freq / 440000 < 2^((2 s + 1) / 24)`.
/// Both bounds are raised to the 24th power and multiplied by a power of two
/// that makes every exponent a natural number.
pub open spec fn is_semitone_offset(freq: nat, s: int) -> bool {
    let shift = if s >= 1 {
        0
    } else {
        1 - 2 * s
    };
    &&& pow24(A4_MILLIHERTZ as nat) * pow2((shift + 2 * s - 1) as nat) <= pow24(freq) * pow2(
        shift as nat,
    )
    &&& pow24(freq) * pow2(shift as nat) < pow24(A4_MILLIHERTZ as nat) * pow2(
        (shift + 2 * s + 1) as nat,
    )
}

/// The number of octaves by which a frequency is raised to reach the table.
pub open spec fn doublings(freq: int) -> nat
    decreases 2 * TABLE_BASE - freq,
{
    if freq <= 0 || freq >= TABLE_BASE {
        0
    } else {
        1 + doublings(2 * freq)
    }
}

/// The number of semitones from A4 to a frequency, as the table gives it:
/// the band within the table, which lies fourteen octaves above A4, less the
/// octaves by which the frequency was raised.
pub open spec fn semitones_from_a4(freq: int) -> int {
    semitone_band(raised_to_table(freq), 11) + 168 - 12 * doublings(freq)
}

/// The 24th power grows with its base.
pub proof fn lemma_pow24_monotonic(a: nat, b: nat)
    requires
        a <= b,
    ensures
        pow24(a) <= pow24(b),
{
    let a2 = a * a;
    let b2 = b * b;
    lemma_square_monotonic(a, b);
    lemma_square_monotonic(a2, b2);
    let a4 = a2 * a2;
    let b4 = b2 * b2;
    lemma_square_monotonic(a4, b4);
    let a8 = a4 * a4;
    let b8 = b4 * b4;
    lemma_square_monotonic(a8, b8);
    let a16 = a8 * a8;
    let b16 = b8 * b8;
    assert(a8 * a16 <= b8 * b16) by (nonlinear_arith)
        requires
            a8 <= b8,
            a16 <= b16,
    ;
}

proof fn lemma_square_monotonic(a: nat, b: nat)
    by (nonlinear_arith)
    requires
        a <= b,
    ensures
        a * a <= b * b,
{
}

proof fn lemma_square_of_product(a: nat, b: nat)
    by (nonlinear_arith)
    ensures
        (a * b) * (a * b) == (a * a) * (b * b),
{
}

/// The 24th power of a product is the product of the 24th powers.
pub proof fn lemma_pow24_of_product(a: nat, b: nat)
    ensures
        pow24(a * b) == pow24(a) * pow24(b),
{
    let a2 = a * a;
    let b2 = b * b;
    let a4 = a2 * a2;
    let b4 = b2 * b2;
    let a8 = a4 * a4;
    let b8 = b4 * b4;
    let a16 = a8 * a8;
    let b16 = b8 * b8;
    lemma_square_of_product(a, b);
    lemma_square_of_product(a2, b2);
    lemma_square_of_product(a4, b4);
    lemma_square_of_product(a8, b8);
    assert((a8 * b8) * (a16 * b16) == (a8 * a16) * (b8 * b16)) by (nonlinear_arith);
}

/// The 24th power of `2^m` is `2^(24 m)`.
pub proof fn lemma_pow24_of_pow2(m: nat)
    ensures
        pow24(pow2(m)) == pow2(24 * m),
{
    lemma_pow2_adds(m, m);
    lemma_pow2_adds(2 * m, 2 * m);
    lemma_pow2_adds(4 * m, 4 * m);
    lemma_pow2_adds(8 * m, 8 * m);
    lemma_pow2_adds(8 * m, 16 * m);
}

/// A frequency below the table is raised by at least one octave, to its
/// product with a power of two, and lands within the table.
pub proof fn lemma_raised_to_table(freq: int)
    requires
        0 < freq < TABLE_BASE,
    ensures
        doublings(freq) >= 1,
        raised_to_table(freq) == freq * pow2(doublings(freq)),
        TABLE_BASE <= raised_to_table(freq) <= 2 * TABLE_BASE - 2,
    decreases TABLE_BASE - freq,
{
    lemma2_to64();
    if 2 * freq >= TABLE_BASE {
        assert(doublings(2 * freq) == 0);
        assert(raised_to_table(2 * freq) == 2 * freq);
        assert(doublings(freq) == 1);
        assert(freq * pow2(1) == 2 * freq) by (nonlinear_arith)
            requires
                pow2(1) == 2,
        ;
    } else {
        lemma_raised_to_table(2 * freq);
        let m = doublings(2 * freq);
        assert(doublings(freq) == 1 + m);
        lemma_pow2_adds(1, m);
        assert(freq * pow2(1 + m) == (2 * freq) * pow2(m)) by (nonlinear_arith)
            requires
                pow2(1 + m) == pow2(1) * pow2(m),
                pow2(1) == 2,
        ;
    }
}

/// Within the table, the band of a frequency is the band whose bounds
/// enclose it.
pub proof fn lemma_band_encloses(raised: int)
    requires
        TABLE_BASE <= raised <= 2 * TABLE_BASE - 2,
    ensures
        0 <= semitone_band(raised, 11) <= 11,
        SEMITONE_BOUNDS@[semitone_band(raised, 11)] <= raised,
        raised < SEMITONE_BOUNDS@[semitone_band(raised, 11) + 1],
{
    reveal_with_fuel(semitone_band, 12);
}

/// The reference `440000^24 * 2^(336 + 2 j)` against which bound `j` of the
/// table is held: twice the 24th power of the exact bound.
pub open spec fn doubled_bound_power(j: nat) -> nat {
    pow24(440_000) * pow2(336 + 2 * j)
}

/// The value of `2^336`.
proof fn lemma_pow2_336()
    ensures
        pow2(336) == 139_984_046_386_112_763_159_840_142_535_527_767_382_602_843_577_165_595_931_249_318_810_236_991_948_760_059_086_304_843_329_475_444_736nat,
{
    lemma2_to64();
    lemma_pow2_adds(64, 64);
    lemma_pow2_adds(128, 128);
    lemma_pow2_adds(256, 64);
    lemma_pow2_adds(320, 16);
    assert(pow2(128) == 0x1_0000_0000_0000_0000_0000_0000_0000_0000nat) by (nonlinear_arith)
        requires
            pow2(128) == pow2(64) * pow2(64),
            pow2(64) == 0x1_0000_0000_0000_0000nat,
    ;
    assert(pow2(256) == 0x1_0000_0000_0000_0000_0000_0000_0000_0000_0000_0000_0000_0000_0000_0000_0000_0000nat)
        by (nonlinear_arith)
        requires
            pow2(256) == pow2(128) * pow2(128),
            pow2(128) == 0x1_0000_0000_0000_0000_0000_0000_0000_0000nat,
    ;
    assert(pow2(320) == 0x1_0000_0000_0000_0000_0000_0000_0000_0000_0000_0000_0000_0000_0000_0000_0000_0000_0000_0000_0000_0000nat)
        by (nonlinear_arith)
        requires
            pow2(320) == pow2(256) * pow2(64),
            pow2(256)
                == 0x1_0000_0000_0000_0000_0000_0000_0000_0000_0000_0000_0000_0000_0000_0000_0000_0000nat,
            pow2(64) == 0x1_0000_0000_0000_0000nat,
    ;
    assert(pow2(336) == 139_984_046_386_112_763_159_840_142_535_527_767_382_602_843_577_165_595_931_249_318_810_236_991_948_760_059_086_304_843_329_475_444_736nat) by (nonlinear_arith)
        requires
            pow2(336) == pow2(320) * pow2(16),
            pow2(320)
                == 0x1_0000_0000_0000_0000_0000_0000_0000_0000_0000_0000_0000_0000_0000_0000_0000_0000_0000_0000_0000_0000nat,
            pow2(16) == 0x10000,
    ;
}

/// Every entry of the table is its exact bound rounded up: the 24th power
/// of the entry reaches the reference, and that of the number before it
/// does not.
pub proof fn lemma_table_entry(j: nat)
    requires
        j <= 12,
    ensures
        2 * pow24((SEMITONE_BOUNDS@[j as int] - 1) as nat) < doubled_bound_power(j),
        doubled_bound_power(j) <= 2 * pow24(SEMITONE_BOUNDS@[j as int] as nat),
{
    lemma2_to64();
    lemma_pow2_336();
    if j == 0 {
        lemma_pow2_adds(336, 0);
        assert(pow2(336) * 1 == 139_984_046_386_112_763_159_840_142_535_527_767_382_602_843_577_165_595_931_249_318_810_236_991_948_760_059_086_304_843_329_475_444_736nat) by (nonlinear_arith)
            requires
                pow2(336) == 139_984_046_386_112_763_159_840_142_535_527_767_382_602_843_577_165_595_931_249_318_810_236_991_948_760_059_086_304_843_329_475_444_736nat,
        ;
        assert(2 * pow24(7_003_734_902) < pow24(440_000) * 139_984_046_386_112_763_159_840_142_535_527_767_382_602_843_577_165_595_931_249_318_810_236_991_948_760_059_086_304_843_329_475_444_736nat) by (nonlinear_arith);
        assert(pow24(440_000) * 139_984_046_386_112_763_159_840_142_535_527_767_382_602_843_577_165_595_931_249_318_810_236_991_948_760_059_086_304_843_329_475_444_736nat <= 2 * pow24(7_003_734_903)) by (nonlinear_arith);
    }
    if j == 1 {
        lemma_pow2_adds(336, 2);
        assert(pow2(336) * 4 == 559_936_185_544_451_052_639_360_570_142_111_069_530_411_374_308_662_383_724_997_275_240_947_967_795_040_236_345_219_373_317_901_778_944nat) by (nonlinear_arith)
            requires
                pow2(336) == 139_984_046_386_112_763_159_840_142_535_527_767_382_602_843_577_165_595_931_249_318_810_236_991_948_760_059_086_304_843_329_475_444_736nat,
        ;
        assert(2 * pow24(7_420_198_651) < pow24(440_000) * 559_936_185_544_451_052_639_360_570_142_111_069_530_411_374_308_662_383_724_997_275_240_947_967_795_040_236_345_219_373_317_901_778_944nat) by (nonlinear_arith);
        assert(pow24(440_000) * 559_936_185_544_451_052_639_360_570_142_111_069_530_411_374_308_662_383_724_997_275_240_947_967_795_040_236_345_219_373_317_901_778_944nat <= 2 * pow24(7_420_198_652)) by (nonlinear_arith);
    }
    if j == 2 {
        lemma_pow2_adds(336, 4);
        assert(pow2(336) * 16 == 2_239_744_742_177_804_210_557_442_280_568_444_278_121_645_497_234_649_534_899_989_100_963_791_871_180_160_945_380_877_493_271_607_115_776nat) by (nonlinear_arith)
            requires
                pow2(336) == 139_984_046_386_112_763_159_840_142_535_527_767_382_602_843_577_165_595_931_249_318_810_236_991_948_760_059_086_304_843_329_475_444_736nat,
        ;
        assert(2 * pow24(7_861_426_624) < pow24(440_000) * 2_239_744_742_177_804_210_557_442_280_568_444_278_121_645_497_234_649_534_899_989_100_963_791_871_180_160_945_380_877_493_271_607_115_776nat) by (nonlinear_arith);
        assert(pow24(440_000) * 2_239_744_742_177_804_210_557_442_280_568_444_278_121_645_497_234_649_534_899_989_100_963_791_871_180_160_945_380_877_493_271_607_115_776nat <= 2 * pow24(7_861_426_625)) by (nonlinear_arith);
    }
    if j == 3 {
        lemma_pow2_adds(336, 6);
        assert(pow2(336) * 64 == 8_958_978_968_711_216_842_229_769_122_273_777_112_486_581_988_938_598_139_599_956_403_855_167_484_720_643_781_523_509_973_086_428_463_104nat) by (nonlinear_arith)
            requires
                pow2(336) == 139_984_046_386_112_763_159_840_142_535_527_767_382_602_843_577_165_595_931_249_318_810_236_991_948_760_059_086_304_843_329_475_444_736nat,
        ;
        assert(2 * pow24(8_328_891_377) < pow24(440_000) * 8_958_978_968_711_216_842_229_769_122_273_777_112_486_581_988_938_598_139_599_956_403_855_167_484_720_643_781_523_509_973_086_428_463_104nat) by (nonlinear_arith);
        assert(pow24(440_000) * 8_958_978_968_711_216_842_229_769_122_273_777_112_486_581_988_938_598_139_599_956_403_855_167_484_720_643_781_523_509_973_086_428_463_104nat <= 2 * pow24(8_328_891_378)) by (nonlinear_arith);
    }
    if j == 4 {
        lemma_pow2_adds(336, 8);
        assert(pow2(336) * 256 == 35_835_915_874_844_867_368_919_076_489_095_108_449_946_327_955_754_392_558_399_825_615_420_669_938_882_575_126_094_039_892_345_713_852_416nat) by (nonlinear_arith)
            requires
                pow2(336) == 139_984_046_386_112_763_159_840_142_535_527_767_382_602_843_577_165_595_931_249_318_810_236_991_948_760_059_086_304_843_329_475_444_736nat,
        ;
        assert(2 * pow24(8_824_153_031) < pow24(440_000) * 35_835_915_874_844_867_368_919_076_489_095_108_449_946_327_955_754_392_558_399_825_615_420_669_938_882_575_126_094_039_892_345_713_852_416nat) by (nonlinear_arith);
        assert(pow24(440_000) * 35_835_915_874_844_867_368_919_076_489_095_108_449_946_327_955_754_392_558_399_825_615_420_669_938_882_575_126_094_039_892_345_713_852_416nat <= 2 * pow24(8_824_153_032)) by (nonlinear_arith);
    }
    if j == 5 {
        lemma_pow2_adds(336, 10);
        assert(pow2(336) * 1024 == 143_343_663_499_379_469_475_676_305_956_380_433_799_785_311_823_017_570_233_599_302_461_682_679_755_530_300_504_376_159_569_382_855_409_664nat) by (nonlinear_arith)
            requires
                pow2(336) == 139_984_046_386_112_763_159_840_142_535_527_767_382_602_843_577_165_595_931_249_318_810_236_991_948_760_059_086_304_843_329_475_444_736nat,
        ;
        assert(2 * pow24(9_348_864_475) < pow24(440_000) * 143_343_663_499_379_469_475_676_305_956_380_433_799_785_311_823_017_570_233_599_302_461_682_679_755_530_300_504_376_159_569_382_855_409_664nat) by (nonlinear_arith);
        assert(pow24(440_000) * 143_343_663_499_379_469_475_676_305_956_380_433_799_785_311_823_017_570_233_599_302_461_682_679_755_530_300_504_376_159_569_382_855_409_664nat <= 2 * pow24(9_348_864_476)) by (nonlinear_arith);
    }
    if j == 6 {
        lemma_pow2_adds(336, 12);
        assert(pow2(336) * 4096 == 573_374_653_997_517_877_902_705_223_825_521_735_199_141_247_292_070_280_934_397_209_846_730_719_022_121_202_017_504_638_277_531_421_638_656nat) by (nonlinear_arith)
            requires
                pow2(336) == 139_984_046_386_112_763_159_840_142_535_527_767_382_602_843_577_165_595_931_249_318_810_236_991_948_760_059_086_304_843_329_475_444_736nat,
        ;
        assert(2 * pow24(9_904_776_886) < pow24(440_000) * 573_374_653_997_517_877_902_705_223_825_521_735_199_141_247_292_070_280_934_397_209_846_730_719_022_121_202_017_504_638_277_531_421_638_656nat) by (nonlinear_arith);
        assert(pow24(440_000) * 573_374_653_997_517_877_902_705_223_825_521_735_199_141_247_292_070_280_934_397_209_846_730_719_022_121_202_017_504_638_277_531_421_638_656nat <= 2 * pow24(9_904_776_887)) by (nonlinear_arith);
    }
    if j == 7 {
        lemma_pow2_adds(336, 14);
        assert(pow2(336) * 16384 == 2_293_498_615_990_071_511_610_820_895_302_086_940_796_564_989_168_281_123_737_588_839_386_922_876_088_484_808_070_018_553_110_125_686_554_624nat) by (nonlinear_arith)
            requires
                pow2(336) == 139_984_046_386_112_763_159_840_142_535_527_767_382_602_843_577_165_595_931_249_318_810_236_991_948_760_059_086_304_843_329_475_444_736nat,
        ;
        assert(2 * pow24(10_493_745_568) < pow24(440_000) * 2_293_498_615_990_071_511_610_820_895_302_086_940_796_564_989_168_281_123_737_588_839_386_922_876_088_484_808_070_018_553_110_125_686_554_624nat) by (nonlinear_arith);
        assert(pow24(440_000) * 2_293_498_615_990_071_511_610_820_895_302_086_940_796_564_989_168_281_123_737_588_839_386_922_876_088_484_808_070_018_553_110_125_686_554_624nat <= 2 * pow24(10_493_745_569)) by (nonlinear_arith);
    }
    if j == 8 {
        lemma_pow2_adds(336, 16);
        assert(pow2(336) * 65536 == 9_173_994_463_960_286_046_443_283_581_208_347_763_186_259_956_673_124_494_950_355_357_547_691_504_353_939_232_280_074_212_440_502_746_218_496nat) by (nonlinear_arith)
            requires
                pow2(336) == 139_984_046_386_112_763_159_840_142_535_527_767_382_602_843_577_165_595_931_249_318_810_236_991_948_760_059_086_304_843_329_475_444_736nat,
        ;
        assert(2 * pow24(11_117_736_151) < pow24(440_000) * 9_173_994_463_960_286_046_443_283_581_208_347_763_186_259_956_673_124_494_950_355_357_547_691_504_353_939_232_280_074_212_440_502_746_218_496nat) by (nonlinear_arith);
        assert(pow24(440_000) * 9_173_994_463_960_286_046_443_283_581_208_347_763_186_259_956_673_124_494_950_355_357_547_691_504_353_939_232_280_074_212_440_502_746_218_496nat <= 2 * pow24(11_117_736_152)) by (nonlinear_arith);
    }
    if j == 9 {
        lemma_pow2_adds(336, 18);
        assert(pow2(336) * 262144 == 36_695_977_855_841_144_185_773_134_324_833_391_052_745_039_826_692_497_979_801_421_430_190_766_017_415_756_929_120_296_849_762_010_984_873_984nat) by (nonlinear_arith)
            requires
                pow2(336) == 139_984_046_386_112_763_159_840_142_535_527_767_382_602_843_577_165_595_931_249_318_810_236_991_948_760_059_086_304_843_329_475_444_736nat,
        ;
        assert(2 * pow24(11_778_831_145) < pow24(440_000) * 36_695_977_855_841_144_185_773_134_324_833_391_052_745_039_826_692_497_979_801_421_430_190_766_017_415_756_929_120_296_849_762_010_984_873_984nat) by (nonlinear_arith);
        assert(pow24(440_000) * 36_695_977_855_841_144_185_773_134_324_833_391_052_745_039_826_692_497_979_801_421_430_190_766_017_415_756_929_120_296_849_762_010_984_873_984nat <= 2 * pow24(11_778_831_146)) by (nonlinear_arith);
    }
    if j == 10 {
        lemma_pow2_adds(336, 20);
        assert(pow2(336) * 1048576 == 146_783_911_423_364_576_743_092_537_299_333_564_210_980_159_306_769_991_919_205_685_720_763_064_069_663_027_716_481_187_399_048_043_939_495_936nat) by (nonlinear_arith)
            requires
                pow2(336) == 139_984_046_386_112_763_159_840_142_535_527_767_382_602_843_577_165_595_931_249_318_810_236_991_948_760_059_086_304_843_329_475_444_736nat,
        ;
        assert(2 * pow24(12_479_236_893) < pow24(440_000) * 146_783_911_423_364_576_743_092_537_299_333_564_210_980_159_306_769_991_919_205_685_720_763_064_069_663_027_716_481_187_399_048_043_939_495_936nat) by (nonlinear_arith);
        assert(pow24(440_000) * 146_783_911_423_364_576_743_092_537_299_333_564_210_980_159_306_769_991_919_205_685_720_763_064_069_663_027_716_481_187_399_048_043_939_495_936nat <= 2 * pow24(12_479_236_894)) by (nonlinear_arith);
    }
    if j == 11 {
        lemma_pow2_adds(336, 22);
        assert(pow2(336) * 4194304 == 587_135_645_693_458_306_972_370_149_197_334_256_843_920_637_227_079_967_676_822_742_883_052_256_278_652_110_865_924_749_596_192_175_757_983_744nat) by (nonlinear_arith)
            requires
                pow2(336) == 139_984_046_386_112_763_159_840_142_535_527_767_382_602_843_577_165_595_931_249_318_810_236_991_948_760_059_086_304_843_329_475_444_736nat,
        ;
        assert(2 * pow24(13_221_290_934) < pow24(440_000) * 587_135_645_693_458_306_972_370_149_197_334_256_843_920_637_227_079_967_676_822_742_883_052_256_278_652_110_865_924_749_596_192_175_757_983_744nat) by (nonlinear_arith);
        assert(pow24(440_000) * 587_135_645_693_458_306_972_370_149_197_334_256_843_920_637_227_079_967_676_822_742_883_052_256_278_652_110_865_924_749_596_192_175_757_983_744nat <= 2 * pow24(13_221_290_935)) by (nonlinear_arith);
    }
    if j == 12 {
        lemma_pow2_adds(336, 24);
        assert(pow2(336) * 16777216 == 2_348_542_582_773_833_227_889_480_596_789_337_027_375_682_548_908_319_870_707_290_971_532_209_025_114_608_443_463_698_998_384_768_703_031_934_976nat) by (nonlinear_arith)
            requires
                pow2(336) == 139_984_046_386_112_763_159_840_142_535_527_767_382_602_843_577_165_595_931_249_318_810_236_991_948_760_059_086_304_843_329_475_444_736nat,
        ;
        assert(2 * pow24(14_007_469_804) < pow24(440_000) * 2_348_542_582_773_833_227_889_480_596_789_337_027_375_682_548_908_319_870_707_290_971_532_209_025_114_608_443_463_698_998_384_768_703_031_934_976nat) by (nonlinear_arith);
        assert(pow24(440_000) * 2_348_542_582_773_833_227_889_480_596_789_337_027_375_682_548_908_319_870_707_290_971_532_209_025_114_608_443_463_698_998_384_768_703_031_934_976nat <= 2 * pow24(14_007_469_805)) by (nonlinear_arith);
    }
}

/// Cancels a positive factor from both sides of an inequality of products.
proof fn lemma_cancel(a: nat, p: nat, lo: nat, q: nat, k: nat, x: nat)
    by (nonlinear_arith)
    requires
        k > 0,
        lo * k == q * x,
        a * x <= p * k,
    ensures
        a * lo <= p * q,
{
    assert((a * lo) * k == (a * x) * q);
    assert((p * q) * k == (p * k) * q);
}

/// Cancels a positive factor from both sides of a strict inequality of
/// products.
proof fn lemma_cancel_strict(a: nat, p: nat, hi: nat, q: nat, k: nat, x: nat)
    requires
        k > 0,
        q > 0,
        hi * k == q * x,
        p * k < a * x,
    ensures
        p * q < a * hi,
{
    let left = p * k;
    let right = a * x;
    assert(left * q < right * q) by (nonlinear_arith)
        requires
            left < right,
            q > 0,
    ;
    assert((a * hi) * k == right * q) by (nonlinear_arith)
        requires
            hi * k == q * x,
            right == a * x,
    ;
    assert((p * q) * k == left * q) by (nonlinear_arith)
        requires
            left == p * k,
    ;
    let small = p * q;
    let large = a * hi;
    assert(small < large) by (nonlinear_arith)
        requires
            small * k < large * k,
            k > 0,
    ;
}

/// The pitch class that the table gives to a frequency is the pitch class
/// of the frequency's distance from A4 in semitones, rounded to the
/// nearest: `round(12 * log2(freq / 440 Hz) + 9) mod 12`.
pub proof fn lemma_pitch_class_is_rounded_semitone(freq: nat)
    requires
        0 < freq < TABLE_BASE,
    ensures
        is_semitone_offset(freq, semitones_from_a4(freq as int)),
        pitch_class_of(freq as int) == (semitones_from_a4(freq as int) + 9) % 12,
{
    let m = doublings(freq as int);
    let raised = raised_to_table(freq as int);
    lemma_raised_to_table(freq as int);
    lemma_band_encloses(raised);
    let j = semitone_band(raised, 11);
    let s = semitones_from_a4(freq as int);
    let a = pow24(440_000);
    let p = pow24(freq);
    // The 24th power of the raised frequency.
    lemma_pow24_of_product(freq, pow2(m));
    lemma_pow24_of_pow2(m);
    assert(raised as nat == freq * pow2(m));
    assert(pow24(raised as nat) == p * pow2(24 * m));
    lemma_pow2_adds(24 * m, 1);
    lemma2_to64();
    let k = pow2(24 * m + 1);
    assert(2 * (p * pow2(24 * m)) == p * k) by (nonlinear_arith)
        requires
            k == pow2(24 * m) * 2,
    ;
    lemma_pow2_pos(24 * m + 1);
    // The bounds of the band.
    lemma_table_entry(j as nat);
    lemma_table_entry((j + 1) as nat);
    lemma_pow24_monotonic(SEMITONE_BOUNDS@[j] as nat, raised as nat);
    lemma_pow24_monotonic(raised as nat, (SEMITONE_BOUNDS@[j + 1] - 1) as nat);
    let x_lo = pow2((336 + 2 * j) as nat);
    let x_hi = pow2((336 + 2 * (j + 1)) as nat);
    assert(a * x_lo <= p * k);
    assert(p * k < a * x_hi);
    // The exponents of the claim.
    let shift = if s >= 1 {
        0
    } else {
        1 - 2 * s
    };
    let lo = pow2((shift + 2 * s - 1) as nat);
    let hi = pow2((shift + 2 * s + 1) as nat);
    let q = pow2(shift as nat);
    lemma_pow2_adds((shift + 2 * s - 1) as nat, 24 * m + 1);
    lemma_pow2_adds(shift as nat, (336 + 2 * j) as nat);
    lemma_pow2_adds((shift + 2 * s + 1) as nat, 24 * m + 1);
    lemma_pow2_adds(shift as nat, (336 + 2 * (j + 1)) as nat);
    assert(shift + 2 * s - 1 + (24 * m + 1) == shift + (336 + 2 * j));
    assert(shift + 2 * s + 1 + (24 * m + 1) == shift + (336 + 2 * (j + 1)));
    lemma_cancel(a, p, lo, q, k, x_lo);
    lemma_pow2_pos(shift as nat);
    lemma_cancel_strict(a, p, hi, q, k, x_hi);
}

/// The pitch class of every frequency that a sample rate can hold is the
/// pitch class that the logarithm gives.
pub proof fn lemma_pitch_class_of_u32(freq: u32)
    requires
        freq > 0,
    ensures
        is_semitone_offset(freq as nat, semitones_from_a4(freq as int)),
        pitch_class_of(freq as int) == (semitones_from_a4(freq as int) + 9) % 12,
{
    lemma_pitch_class_is_rounded_semitone(freq as nat);
}

} // verus!
