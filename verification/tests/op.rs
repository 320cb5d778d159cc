use tuning_tool::op::Op::{Add, Brackets, Div, Mul, Pow, Sub, Val, Var};

#[test]
fn op_precedence() {
        assert!(!Add.is_lower_precedence_than(&Add));
        assert!(Add.is_lower_precedence_than(&Div));
        assert!(Add.is_lower_precedence_than(&Mul));
        assert!(Add.is_lower_precedence_than(&Pow));
        assert!(!Add.is_lower_precedence_than(&Sub));
        assert!(!Add.is_lower_precedence_than(&Var));
        assert!(!Add.is_lower_precedence_than(&Val));
        assert!(Add.is_lower_precedence_than(&Brackets));
        assert!(!Div.is_lower_precedence_than(&Add));
        assert!(!Div.is_lower_precedence_than(&Div));
        assert!(!Div.is_lower_precedence_than(&Mul));
        assert!(Div.is_lower_precedence_than(&Pow));
        assert!(!Div.is_lower_precedence_than(&Sub));
        assert!(!Div.is_lower_precedence_than(&Var));
        assert!(!Div.is_lower_precedence_than(&Val));
        assert!(Div.is_lower_precedence_than(&Brackets));
        assert!(!Mul.is_lower_precedence_than(&Add));
        assert!(!Mul.is_lower_precedence_than(&Div));
        assert!(!Mul.is_lower_precedence_than(&Mul));
        assert!(Mul.is_lower_precedence_than(&Pow));
        assert!(!Mul.is_lower_precedence_than(&Sub));
        assert!(!Mul.is_lower_precedence_than(&Var));
        assert!(!Mul.is_lower_precedence_than(&Val));
        assert!(Mul.is_lower_precedence_than(&Brackets));
        assert!(!Pow.is_lower_precedence_than(&Add));
        assert!(!Pow.is_lower_precedence_than(&Div));
        assert!(!Pow.is_lower_precedence_than(&Mul));
        assert!(!Pow.is_lower_precedence_than(&Pow));
        assert!(!Pow.is_lower_precedence_than(&Sub));
        assert!(!Pow.is_lower_precedence_than(&Var));
        assert!(!Pow.is_lower_precedence_than(&Val));
        assert!(Pow.is_lower_precedence_than(&Brackets));
        assert!(!Sub.is_lower_precedence_than(&Add));
        assert!(Sub.is_lower_precedence_than(&Div));
        assert!(Sub.is_lower_precedence_than(&Mul));
        assert!(Sub.is_lower_precedence_than(&Pow));
        assert!(!Sub.is_lower_precedence_than(&Sub));
        assert!(!Sub.is_lower_precedence_than(&Var));
        assert!(!Sub.is_lower_precedence_than(&Val));
        assert!(Sub.is_lower_precedence_than(&Brackets));
        assert!(!Var.is_lower_precedence_than(&Add));
        assert!(!Var.is_lower_precedence_than(&Div));
        assert!(!Var.is_lower_precedence_than(&Mul));
        assert!(!Var.is_lower_precedence_than(&Pow));
        assert!(!Var.is_lower_precedence_than(&Sub));
        assert!(!Var.is_lower_precedence_than(&Var));
        assert!(!Var.is_lower_precedence_than(&Val));
        assert!(!Var.is_lower_precedence_than(&Brackets));
        assert!(!Val.is_lower_precedence_than(&Add));
        assert!(!Val.is_lower_precedence_than(&Div));
        assert!(!Val.is_lower_precedence_than(&Mul));
        assert!(!Val.is_lower_precedence_than(&Pow));
        assert!(!Val.is_lower_precedence_than(&Sub));
        assert!(!Val.is_lower_precedence_than(&Var));
        assert!(!Val.is_lower_precedence_than(&Val));
        assert!(!Val.is_lower_precedence_than(&Brackets));
        assert!(!Brackets.is_lower_precedence_than(&Add));
        assert!(!Brackets.is_lower_precedence_than(&Div));
        assert!(!Brackets.is_lower_precedence_than(&Mul));
        assert!(!Brackets.is_lower_precedence_than(&Pow));
        assert!(!Brackets.is_lower_precedence_than(&Sub));
        assert!(!Brackets.is_lower_precedence_than(&Var));
        assert!(!Brackets.is_lower_precedence_than(&Val));
        assert!(!Brackets.is_lower_precedence_than(&Brackets));
}

#[test]
fn op_precedence_orders_levels() {
    let ops = [Add, Sub, Mul, Div, Pow, Brackets, Var, Val];
    for a in ops.iter() {
        assert!(!a.is_lower_precedence_than(a));
        for b in ops.iter() {
            assert!(!(a.is_lower_precedence_than(b) && b.is_lower_precedence_than(a)));
            for c in ops.iter() {
                if a.is_lower_precedence_than(b) && b.is_lower_precedence_than(c) {
                    assert!(a.is_lower_precedence_than(c));
                }
            }
        }
    }
}
