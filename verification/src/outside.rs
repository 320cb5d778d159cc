use vstd::prelude::*;
use rust_decimal::Error as DecimalError;

verus! {

#[verifier::external_type_specification]
#[verifier::external_body]
pub struct ExDecimal(rust_decimal::Decimal);

#[verifier::external_type_specification]
#[verifier::external_body]
pub struct ExDecimalError(DecimalError);

#[verifier::external_type_specification]
#[verifier::external_body]
#[verifier::reject_recursive_types(T)]
pub struct ExRatio<T>(num::rational::Ratio<T>);

#[verifier::external_type_specification]
#[verifier::external_body]
pub struct ExBigInt(num::BigInt);

#[verifier::external_type_specification]
#[verifier::external_body]
pub struct ExParseRatioError(num::rational::ParseRatioError);

} // verus!
