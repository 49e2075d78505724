use muek_engine::greet::MyGreeter;

#[test]
fn greets_by_name() {
    let greeter = MyGreeter::default();
    assert_eq!(greeter.reply_message("Muek"), "Connect: Muek");
}

#[test]
fn greets_an_empty_name() {
    assert_eq!(MyGreeter {}.reply_message(""), "Connect: ");
}

#[test]
fn keeps_the_name_as_it_is() {
    assert_eq!(MyGreeter {}.reply_message(" a {} b "), "Connect:  a {} b ");
}
