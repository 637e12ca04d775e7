//! The Unicode ranges of the scripts that a single character is recognized by
//! (`Script::from_char`): one spec function per script and its executable test.
use vstd::prelude::*;

verus! {

pub open spec fn spec_is_cyrillic(c: char) -> bool {
    let u = c as u32;
    (0x0400 <= u && u <= 0x0484)
    || (0x0487 <= u && u <= 0x052F)
    || (0x2DE0 <= u && u <= 0x2DFF)
    || (0xA640 <= u && u <= 0xA69D)
    || u == 0x1D2B
    || u == 0x1D78
    || u == 0xA69F
}

pub fn is_cyrillic(c: char) -> (r: bool)
    ensures
        r == spec_is_cyrillic(c),
{
    let u = c as u32;
    (0x0400 <= u && u <= 0x0484)
    || (0x0487 <= u && u <= 0x052F)
    || (0x2DE0 <= u && u <= 0x2DFF)
    || (0xA640 <= u && u <= 0xA69D)
    || u == 0x1D2B
    || u == 0x1D78
    || u == 0xA69F
}

pub open spec fn spec_is_latin(c: char) -> bool {
    let u = c as u32;
    (0x0061 <= u && u <= 0x007A)
    || (0x0041 <= u && u <= 0x005A)
    || (0x0080 <= u && u <= 0x00FF)
    || (0x0100 <= u && u <= 0x017F)
    || (0x0180 <= u && u <= 0x024F)
    || (0x0250 <= u && u <= 0x02AF)
    || (0x1D00 <= u && u <= 0x1D7F)
    || (0x1D80 <= u && u <= 0x1DBF)
    || (0x1E00 <= u && u <= 0x1EFF)
    || (0x2100 <= u && u <= 0x214F)
    || (0x2C60 <= u && u <= 0x2C7F)
    || (0xA720 <= u && u <= 0xA7FF)
    || (0xAB30 <= u && u <= 0xAB6F)
}

pub fn is_latin(c: char) -> (r: bool)
    ensures
        r == spec_is_latin(c),
{
    let u = c as u32;
    (0x0061 <= u && u <= 0x007A)
    || (0x0041 <= u && u <= 0x005A)
    || (0x0080 <= u && u <= 0x00FF)
    || (0x0100 <= u && u <= 0x017F)
    || (0x0180 <= u && u <= 0x024F)
    || (0x0250 <= u && u <= 0x02AF)
    || (0x1D00 <= u && u <= 0x1D7F)
    || (0x1D80 <= u && u <= 0x1DBF)
    || (0x1E00 <= u && u <= 0x1EFF)
    || (0x2100 <= u && u <= 0x214F)
    || (0x2C60 <= u && u <= 0x2C7F)
    || (0xA720 <= u && u <= 0xA7FF)
    || (0xAB30 <= u && u <= 0xAB6F)
}

pub open spec fn spec_is_arabic(c: char) -> bool {
    let u = c as u32;
    (0x0600 <= u && u <= 0x06FF)
    || (0x0750 <= u && u <= 0x07FF)
    || (0x08A0 <= u && u <= 0x08FF)
    || (0xFB50 <= u && u <= 0xFDFF)
    || (0xFE70 <= u && u <= 0xFEFF)
    || (0x10E60 <= u && u <= 0x10E7F)
    || (0x1EE00 <= u && u <= 0x1EEFF)
}

pub fn is_arabic(c: char) -> (r: bool)
    ensures
        r == spec_is_arabic(c),
{
    let u = c as u32;
    (0x0600 <= u && u <= 0x06FF)
    || (0x0750 <= u && u <= 0x07FF)
    || (0x08A0 <= u && u <= 0x08FF)
    || (0xFB50 <= u && u <= 0xFDFF)
    || (0xFE70 <= u && u <= 0xFEFF)
    || (0x10E60 <= u && u <= 0x10E7F)
    || (0x1EE00 <= u && u <= 0x1EEFF)
}

pub open spec fn spec_is_devanagari(c: char) -> bool {
    let u = c as u32;
    (0x0900 <= u && u <= 0x097F)
    || (0xA8E0 <= u && u <= 0xA8FF)
    || (0x1CD0 <= u && u <= 0x1CFF)
}

pub fn is_devanagari(c: char) -> (r: bool)
    ensures
        r == spec_is_devanagari(c),
{
    let u = c as u32;
    (0x0900 <= u && u <= 0x097F)
    || (0xA8E0 <= u && u <= 0xA8FF)
    || (0x1CD0 <= u && u <= 0x1CFF)
}

pub open spec fn spec_is_ethiopic(c: char) -> bool {
    let u = c as u32;
    (0x1200 <= u && u <= 0x139F)
    || (0x2D80 <= u && u <= 0x2DDF)
    || (0xAB00 <= u && u <= 0xAB2F)
}

pub fn is_ethiopic(c: char) -> (r: bool)
    ensures
        r == spec_is_ethiopic(c),
{
    let u = c as u32;
    (0x1200 <= u && u <= 0x139F)
    || (0x2D80 <= u && u <= 0x2DDF)
    || (0xAB00 <= u && u <= 0xAB2F)
}

pub open spec fn spec_is_hebrew(c: char) -> bool {
    let u = c as u32;
    (0x0590 <= u && u <= 0x05FF)
}

pub fn is_hebrew(c: char) -> (r: bool)
    ensures
        r == spec_is_hebrew(c),
{
    let u = c as u32;
    (0x0590 <= u && u <= 0x05FF)
}

pub open spec fn spec_is_georgian(c: char) -> bool {
    let u = c as u32;
    (0x10A0 <= u && u <= 0x10FF)
}

pub fn is_georgian(c: char) -> (r: bool)
    ensures
        r == spec_is_georgian(c),
{
    let u = c as u32;
    (0x10A0 <= u && u <= 0x10FF)
}

pub open spec fn spec_is_mandarin(c: char) -> bool {
    let u = c as u32;
    (0x2E80 <= u && u <= 0x2E99)
    || (0x2E9B <= u && u <= 0x2EF3)
    || (0x2F00 <= u && u <= 0x2FD5)
    || u == 0x3005
    || u == 0x3007
    || (0x3021 <= u && u <= 0x3029)
    || (0x3038 <= u && u <= 0x303B)
    || (0x3400 <= u && u <= 0x4DB5)
    || (0x4E00 <= u && u <= 0x9FCC)
    || (0xF900 <= u && u <= 0xFA6D)
    || (0xFA70 <= u && u <= 0xFAD9)
}

pub fn is_mandarin(c: char) -> (r: bool)
    ensures
        r == spec_is_mandarin(c),
{
    let u = c as u32;
    (0x2E80 <= u && u <= 0x2E99)
    || (0x2E9B <= u && u <= 0x2EF3)
    || (0x2F00 <= u && u <= 0x2FD5)
    || u == 0x3005
    || u == 0x3007
    || (0x3021 <= u && u <= 0x3029)
    || (0x3038 <= u && u <= 0x303B)
    || (0x3400 <= u && u <= 0x4DB5)
    || (0x4E00 <= u && u <= 0x9FCC)
    || (0xF900 <= u && u <= 0xFA6D)
    || (0xFA70 <= u && u <= 0xFAD9)
}

pub open spec fn spec_is_bengali(c: char) -> bool {
    let u = c as u32;
    (0x0980 <= u && u <= 0x09FF)
}

pub fn is_bengali(c: char) -> (r: bool)
    ensures
        r == spec_is_bengali(c),
{
    let u = c as u32;
    (0x0980 <= u && u <= 0x09FF)
}

pub open spec fn spec_is_hiragana(c: char) -> bool {
    let u = c as u32;
    (0x3040 <= u && u <= 0x309F)
}

pub fn is_hiragana(c: char) -> (r: bool)
    ensures
        r == spec_is_hiragana(c),
{
    let u = c as u32;
    (0x3040 <= u && u <= 0x309F)
}

pub open spec fn spec_is_katakana(c: char) -> bool {
    let u = c as u32;
    (0x30A0 <= u && u <= 0x30FF)
}

pub fn is_katakana(c: char) -> (r: bool)
    ensures
        r == spec_is_katakana(c),
{
    let u = c as u32;
    (0x30A0 <= u && u <= 0x30FF)
}

pub open spec fn spec_is_hangul(c: char) -> bool {
    let u = c as u32;
    (0xAC00 <= u && u <= 0xD7AF)
    || (0x1100 <= u && u <= 0x11FF)
    || (0x3130 <= u && u <= 0x318F)
    || (0x3200 <= u && u <= 0x32FF)
    || (0xA960 <= u && u <= 0xA97F)
    || (0xD7B0 <= u && u <= 0xD7FF)
    || (0xFF00 <= u && u <= 0xFFEF)
}

pub fn is_hangul(c: char) -> (r: bool)
    ensures
        r == spec_is_hangul(c),
{
    let u = c as u32;
    (0xAC00 <= u && u <= 0xD7AF)
    || (0x1100 <= u && u <= 0x11FF)
    || (0x3130 <= u && u <= 0x318F)
    || (0x3200 <= u && u <= 0x32FF)
    || (0xA960 <= u && u <= 0xA97F)
    || (0xD7B0 <= u && u <= 0xD7FF)
    || (0xFF00 <= u && u <= 0xFFEF)
}

pub open spec fn spec_is_greek(c: char) -> bool {
    let u = c as u32;
    (0x0370 <= u && u <= 0x03FF)
}

pub fn is_greek(c: char) -> (r: bool)
    ensures
        r == spec_is_greek(c),
{
    let u = c as u32;
    (0x0370 <= u && u <= 0x03FF)
}

pub open spec fn spec_is_kannada(c: char) -> bool {
    let u = c as u32;
    (0x0C80 <= u && u <= 0x0CFF)
}

pub fn is_kannada(c: char) -> (r: bool)
    ensures
        r == spec_is_kannada(c),
{
    let u = c as u32;
    (0x0C80 <= u && u <= 0x0CFF)
}

pub open spec fn spec_is_tamil(c: char) -> bool {
    let u = c as u32;
    (0x0B80 <= u && u <= 0x0BFF)
}

pub fn is_tamil(c: char) -> (r: bool)
    ensures
        r == spec_is_tamil(c),
{
    let u = c as u32;
    (0x0B80 <= u && u <= 0x0BFF)
}

pub open spec fn spec_is_thai(c: char) -> bool {
    let u = c as u32;
    (0x0E00 <= u && u <= 0x0E7F)
}

pub fn is_thai(c: char) -> (r: bool)
    ensures
        r == spec_is_thai(c),
{
    let u = c as u32;
    (0x0E00 <= u && u <= 0x0E7F)
}

pub open spec fn spec_is_gujarati(c: char) -> bool {
    let u = c as u32;
    (0x0A80 <= u && u <= 0x0AFF)
}

pub fn is_gujarati(c: char) -> (r: bool)
    ensures
        r == spec_is_gujarati(c),
{
    let u = c as u32;
    (0x0A80 <= u && u <= 0x0AFF)
}

pub open spec fn spec_is_gurmukhi(c: char) -> bool {
    let u = c as u32;
    (0x0A00 <= u && u <= 0x0A7F)
}

pub fn is_gurmukhi(c: char) -> (r: bool)
    ensures
        r == spec_is_gurmukhi(c),
{
    let u = c as u32;
    (0x0A00 <= u && u <= 0x0A7F)
}

pub open spec fn spec_is_telugu(c: char) -> bool {
    let u = c as u32;
    (0x0C00 <= u && u <= 0x0C7F)
}

pub fn is_telugu(c: char) -> (r: bool)
    ensures
        r == spec_is_telugu(c),
{
    let u = c as u32;
    (0x0C00 <= u && u <= 0x0C7F)
}

pub open spec fn spec_is_malayalam(c: char) -> bool {
    let u = c as u32;
    (0x0D00 <= u && u <= 0x0D7F)
}

pub fn is_malayalam(c: char) -> (r: bool)
    ensures
        r == spec_is_malayalam(c),
{
    let u = c as u32;
    (0x0D00 <= u && u <= 0x0D7F)
}

pub open spec fn spec_is_oriya(c: char) -> bool {
    let u = c as u32;
    (0x0B00 <= u && u <= 0x0B7F)
}

pub fn is_oriya(c: char) -> (r: bool)
    ensures
        r == spec_is_oriya(c),
{
    let u = c as u32;
    (0x0B00 <= u && u <= 0x0B7F)
}

pub open spec fn spec_is_myanmar(c: char) -> bool {
    let u = c as u32;
    (0x1000 <= u && u <= 0x109F)
}

pub fn is_myanmar(c: char) -> (r: bool)
    ensures
        r == spec_is_myanmar(c),
{
    let u = c as u32;
    (0x1000 <= u && u <= 0x109F)
}

pub open spec fn spec_is_sinhala(c: char) -> bool {
    let u = c as u32;
    (0x0D80 <= u && u <= 0x0DFF)
}

pub fn is_sinhala(c: char) -> (r: bool)
    ensures
        r == spec_is_sinhala(c),
{
    let u = c as u32;
    (0x0D80 <= u && u <= 0x0DFF)
}

pub open spec fn spec_is_khmer(c: char) -> bool {
    let u = c as u32;
    (0x1780 <= u && u <= 0x17FF)
    || (0x19E0 <= u && u <= 0x19FF)
}

pub fn is_khmer(c: char) -> (r: bool)
    ensures
        r == spec_is_khmer(c),
{
    let u = c as u32;
    (0x1780 <= u && u <= 0x17FF)
    || (0x19E0 <= u && u <= 0x19FF)
}

pub open spec fn spec_is_armenian(c: char) -> bool {
    let u = c as u32;
    (0x0530 <= u && u <= 0x058F)
    || (0xFB13 <= u && u <= 0xFB17)
}

pub fn is_armenian(c: char) -> (r: bool)
    ensures
        r == spec_is_armenian(c),
{
    let u = c as u32;
    (0x0530 <= u && u <= 0x058F)
    || (0xFB13 <= u && u <= 0xFB17)
}

} // verus!
