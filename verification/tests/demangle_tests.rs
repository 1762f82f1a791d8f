use fluo::mangle::{Node, NodeChild};

#[test]
fn simple_test() {
    assert_eq!(
        Node::demangle("N5entry".to_string()),
        Ok(Node {
            descriptor: '$',
            child: NodeChild::Children(vec![Node {
                descriptor: 'N',
                child: NodeChild::RawString("entry".to_string()),
            }])
        })
    )
}

#[test]
fn complex_test() {
    assert_eq!(
        Node::demangle("N7my_func_P5V3int_P5V3int_R14t11V3int_V3int".to_string()),
        Ok(Node {
            descriptor: '$',
            child: NodeChild::Children(vec![
                Node {
                    descriptor: 'N',
                    child: NodeChild::RawString("my_func".to_string())
                },
                Node {
                    descriptor: 'P',
                    child: NodeChild::Children(vec![Node {
                        descriptor: 'V',
                        child: NodeChild::RawString("int".to_string())
                    }])
                },
                Node {
                    descriptor: 'P',
                    child: NodeChild::Children(vec![Node {
                        descriptor: 'V',
                        child: NodeChild::RawString("int".to_string())
                    }])
                },
                Node {
                    descriptor: 'R',
                    child: NodeChild::Children(vec![Node {
                        descriptor: 't',
                        child: NodeChild::Children(vec![
                            Node {
                                descriptor: 'V',
                                child: NodeChild::RawString("int".to_string())
                            },
                            Node {
                                descriptor: 'V',
                                child: NodeChild::RawString("int".to_string())
                            }
                        ])
                    }])
                }
            ])
        })
    )
}
