use std::cell::Cell;

use ringbuf::{
    head_tail, Dropper, PopAccessError, PopError, PushAccessError, PushError, RingBuffer,
};

#[test]
fn capacity() {
    let cap = 13;
    let buf = RingBuffer::<i32>::new(cap);
    assert_eq!(buf.capacity(), cap);
}

#[test]
fn split_capacity() {
    let cap = 13;
    let buf = RingBuffer::<i32>::new(cap);
    let (prod, cons) = buf.split();
    
    assert_eq!(prod.capacity(), cap);
    assert_eq!(cons.capacity(), cap);
}

#[test]
fn push() {
    let cap = 2;
    let buf = RingBuffer::<i32>::new(cap);
    let (mut prod, _) = buf.split();
    

    assert_eq!(head_tail(&prod.rb), (0, 0));

    assert!(matches!(prod.push(123), Ok(())));
    assert_eq!(head_tail(&prod.rb), (0, 1));

    assert!(matches!(prod.push(234), Ok(())));
    assert_eq!(head_tail(&prod.rb), (0, 2));

    assert!(matches!(prod.push(345), Err((PushError::Full, 345))));
    assert_eq!(head_tail(&prod.rb), (0, 2));
}

#[test]
fn pop_empty() {
    let cap = 2;
    let buf = RingBuffer::<i32>::new(cap);
    let (_, mut cons) = buf.split();


    assert_eq!(head_tail(&cons.rb), (0, 0));

    assert_eq!(cons.pop(), Err(PopError::Empty));
    assert_eq!(head_tail(&cons.rb), (0, 0));
}

#[test]
fn push_pop_one() {
    let cap = 2;
    let buf = RingBuffer::<i32>::new(cap);
    let (mut prod, mut cons) = buf.split();

    let vcap = cap + 1;
    let values = [12, 34, 56, 78, 90];
    assert_eq!(head_tail(&cons.rb), (0, 0));

    for (i, v) in values.iter().enumerate() {
        assert!(matches!(prod.push(*v), Ok(())));
        assert_eq!(head_tail(&cons.rb), (i % vcap, (i + 1) % vcap));

        match cons.pop() {
            Ok(w) => assert_eq!(w, *v),
            other => panic!("{:?}", other),
        }
        assert_eq!(head_tail(&cons.rb), ((i + 1) % vcap, (i + 1) % vcap));

        assert_eq!(cons.pop(), Err(PopError::Empty));
        assert_eq!(head_tail(&cons.rb), ((i + 1) % vcap, (i + 1) % vcap));
    }
}

#[test]
fn push_pop_all() {
    let cap = 2;
    let buf = RingBuffer::<i32>::new(cap);
    let (mut prod, mut cons) = buf.split();

    let vcap = cap + 1;
    let values = [(12, 34, 13), (56, 78, 57), (90, 10, 91)];
    assert_eq!(head_tail(&cons.rb), (0, 0));

    for (i, v) in values.iter().enumerate() {
        assert!(matches!(prod.push(v.0), Ok(())));
        assert_eq!(head_tail(&cons.rb), (cap*i % vcap, (cap*i + 1) % vcap));

        assert!(matches!(prod.push(v.1), Ok(())));
        assert_eq!(head_tail(&cons.rb), (cap*i % vcap, (cap*i + 2) % vcap));

        match prod.push(v.2) {
            Err((PushError::Full, w)) => assert_eq!(w, v.2),
            other => panic!("{:?}", other),
        }
        assert_eq!(head_tail(&cons.rb), (cap*i % vcap, (cap*i + 2) % vcap));


        match cons.pop() {
            Ok(w) => assert_eq!(w, v.0),
            other => panic!("{:?}", other),
        }
        assert_eq!(head_tail(&cons.rb), ((cap*i + 1) % vcap, (cap*i + 2) % vcap));

        match cons.pop() {
            Ok(w) => assert_eq!(w, v.1),
            other => panic!("{:?}", other),
        }
        assert_eq!(head_tail(&cons.rb), ((cap*i + 2) % vcap, (cap*i + 2) % vcap));

        assert_eq!(cons.pop(), Err(PopError::Empty));
        assert_eq!(head_tail(&cons.rb), ((cap*i + 2) % vcap, (cap*i + 2) % vcap));
    }
}

#[test]
fn producer_full() {
    let buf = RingBuffer::<i32>::new(1);
    let (mut prod, _) = buf.split();

    assert!(!prod.is_full());

    assert!(matches!(prod.push(123), Ok(())));
    assert!(prod.is_full());
}

#[test]
fn consumer_empty() {
    let buf = RingBuffer::<i32>::new(1);
    let (mut prod, cons) = buf.split();


    assert_eq!(head_tail(&cons.rb), (0, 0));
    assert!(cons.is_empty());

    assert!(matches!(prod.push(123), Ok(())));
    assert!(!cons.is_empty());
}

#[test]
fn drop() {
    let (ca, cb) = (Cell::new(0), Cell::new(0));
    let (da, db) = (Dropper::new(&ca), Dropper::new(&cb));

    let cap = 3;
    let buf = RingBuffer::new(cap);

    {
        let (mut prod, mut cons) = buf.split();

        assert_eq!((ca.get(), cb.get()), (0, 0));

        prod.push(da).unwrap();
        assert_eq!((ca.get(), cb.get()), (0, 0));

        prod.push(db).unwrap();
        assert_eq!((ca.get(), cb.get()), (0, 0));

        cons.pop().unwrap();
        assert_eq!((ca.get(), cb.get()), (1, 0));
    }
    
    assert_eq!((ca.get(), cb.get()), (1, 1));
}

#[test]
fn push_access() {
    let cap = 2;
    let buf = RingBuffer::<i32>::new(cap);
    let (mut prod, mut cons) = buf.split();

    let vs_20 = (123, 456);
    let push_fn_20 = |left: &mut [i32], right: &mut [i32]| -> Result<(usize, ()), ()> {
        assert_eq!(left.len(), 2);
        assert_eq!(right.len(), 0);
        left[0] = vs_20.0;
        left[1] = vs_20.1;
        Ok((2, ()))
    };

    assert_eq!(prod.push_access(push_fn_20).unwrap().unwrap(), (2, ()));

    assert_eq!(cons.pop().unwrap(), vs_20.0);
    assert_eq!(cons.pop().unwrap(), vs_20.1);
    assert!(matches!(cons.pop(), Err(PopError::Empty)));

    let vs_11 = (123, 456);
    let push_fn_11 = |left: &mut [i32], right: &mut [i32]| -> Result<(usize, ()), ()> {
        assert_eq!(left.len(), 1);
        assert_eq!(right.len(), 1);
        left[0] = vs_11.0;
        right[0] = vs_11.1;
        Ok((2, ()))
    };

    assert_eq!(prod.push_access(push_fn_11).unwrap().unwrap(), (2, ()));

    assert_eq!(cons.pop().unwrap(), vs_11.0);
    assert_eq!(cons.pop().unwrap(), vs_11.1);
    assert!(matches!(cons.pop(), Err(PopError::Empty)));
}


#[test]
fn pop_access_full() {
    let cap = 2;
    let buf = RingBuffer::<i32>::new(cap);
    let (_, mut cons) = buf.split();

    let dummy_fn = |_l: &mut [i32], _r: &mut [i32]| -> Result<(usize, ()), ()> {
        if true {
            Ok((0, ()))
        } else {
            Err(())
        }
    };
    assert!(matches!(cons.pop_access(dummy_fn), Err(PopAccessError::Empty)));
}

#[test]
fn pop_access_empty() {
    let cap = 2;
    let buf = RingBuffer::<i32>::new(cap);
    let (_, mut cons) = buf.split();

    let dummy_fn = |_l: &mut [i32], _r: &mut [i32]| -> Result<(usize, ()), ()> {
        if true {
            Ok((0, ()))
        } else {
            Err(())
        }
    };
    assert!(matches!(cons.pop_access(dummy_fn), Err(PopAccessError::Empty)));
}

#[test]
fn pop_access() {
    let cap = 2;
    let buf = RingBuffer::<i32>::new(cap);
    let (mut prod, mut cons) = buf.split();


    let vs_20 = (123, 456);

    assert!(matches!(prod.push(vs_20.0), Ok(())));
    assert!(matches!(prod.push(vs_20.1), Ok(())));
    assert!(matches!(prod.push(0), Err((PushError::Full, 0))));

    let pop_fn_20 = |left: &mut [i32], right: &mut [i32]| -> Result<(usize, ()), ()> {
        assert_eq!(left.len(), 2);
        assert_eq!(right.len(), 0);
        assert_eq!(left[0], vs_20.0);
        assert_eq!(left[1], vs_20.1);
        Ok((2, ()))
    };

    assert_eq!(cons.pop_access(pop_fn_20).unwrap().unwrap(), (2, ()));


    let vs_11 = (123, 456);
    
    assert!(matches!(prod.push(vs_11.0), Ok(())));
    assert!(matches!(prod.push(vs_11.1), Ok(())));
    assert!(matches!(prod.push(0), Err((PushError::Full, 0))));
    
    let pop_fn_11 = |left: &mut [i32], right: &mut [i32]| -> Result<(usize, ()), ()> {
        assert_eq!(left.len(), 1);
        assert_eq!(right.len(), 1);
        assert_eq!(left[0], vs_11.0);
        assert_eq!(right[0], vs_11.1);
        Ok((2, ()))
    };

    assert_eq!(cons.pop_access(pop_fn_11).unwrap().unwrap(), (2, ()));

}

#[test]
fn push_access_return() {
    let cap = 2;
    let buf = RingBuffer::<i32>::new(cap);
    let (mut prod, mut cons) = buf.split();

    let push_fn_3 = |left: &mut [i32], right: &mut [i32]| -> Result<(usize, ()), ()> {
        assert_eq!(left.len(), 2);
        assert_eq!(right.len(), 0);
        Ok((3, ()))
    };

    assert!(matches!(prod.push_access(push_fn_3), Err(PushAccessError::BadLen)
    ));

    let push_fn_err = |left: &mut [i32], right: &mut [i32]| -> Result<(usize, ()), i32> {
        assert_eq!(left.len(), 2);
        assert_eq!(right.len(), 0);
        Err(123)
    };

    assert!(matches!(prod.push_access(push_fn_err), Ok(Err(123))
    ));

    let push_fn_0 = |left: &mut [i32], right: &mut [i32]| -> Result<(usize, ()), ()> {
        assert_eq!(left.len(), 2);
        assert_eq!(right.len(), 0);
        Ok((0, ()))
    };

    assert!(matches!(prod.push_access(push_fn_0), Ok(Ok((0, ())))
    ));

    let push_fn_1 = |left: &mut [i32], right: &mut [i32]| -> Result<(usize, ()), ()> {
        assert_eq!(left.len(), 2);
        assert_eq!(right.len(), 0);
        left[0] = 12;
        Ok((1, ()))
    };

    assert!(matches!(prod.push_access(push_fn_1), Ok(Ok((1, ())))
    ));

    let push_fn_2 = |left: &mut [i32], right: &mut [i32]| -> Result<(usize, ()), ()> {
        assert_eq!(left.len(), 1);
        assert_eq!(right.len(), 0);
        left[0] = 34;
        Ok((1, ()))
    };

    assert!(matches!(prod.push_access(push_fn_2), Ok(Ok((1, ())))
    ));

    assert_eq!(cons.pop().unwrap(), 12);
    assert_eq!(cons.pop().unwrap(), 34);
    assert!(matches!(cons.pop(), Err(PopError::Empty)));
}

#[test]
fn pop_access_return() {
    let cap = 2;
    let buf = RingBuffer::<i32>::new(cap);
    let (mut prod, mut cons) = buf.split();

    assert!(matches!(prod.push(12), Ok(())));
    assert!(matches!(prod.push(34), Ok(())));
    assert!(matches!(prod.push(0), Err((PushError::Full, 0))));

    let pop_fn_3 = |left: &mut [i32], right: &mut [i32]| -> Result<(usize, ()), ()> {
        assert_eq!(left.len(), 2);
        assert_eq!(right.len(), 0);
        Ok((3, ()))
    };

    assert!(matches!(cons.pop_access(pop_fn_3), Err(PopAccessError::BadLen)
    ));

    let pop_fn_err = |left: &mut [i32], right: &mut [i32]| -> Result<(usize, ()), i32> {
        assert_eq!(left.len(), 2);
        assert_eq!(right.len(), 0);
        Err(123)
    };

    assert!(matches!(cons.pop_access(pop_fn_err), Ok(Err(123))
    ));

    let pop_fn_0 = |left: &mut [i32], right: &mut [i32]| -> Result<(usize, ()), ()> {
        assert_eq!(left.len(), 2);
        assert_eq!(right.len(), 0);
        Ok((0, ()))
    };

    assert!(matches!(cons.pop_access(pop_fn_0), Ok(Ok((0, ())))
    ));

    let pop_fn_1 = |left: &mut [i32], right: &mut [i32]| -> Result<(usize, ()), ()> {
        assert_eq!(left.len(), 2);
        assert_eq!(right.len(), 0);
        assert_eq!(left[0], 12);
        Ok((1, ()))
    };

    assert!(matches!(cons.pop_access(pop_fn_1), Ok(Ok((1, ())))
    ));

    let pop_fn_2 = |left: &mut [i32], right: &mut [i32]| -> Result<(usize, ()), ()> {
        assert_eq!(left.len(), 1);
        assert_eq!(right.len(), 0);
        assert_eq!(left[0], 34);
        Ok((1, ()))
    };

    assert!(matches!(cons.pop_access(pop_fn_2), Ok(Ok((1, ())))
    ));
}

#[test]
fn push_pop_access() {
    let cap = 2;
    let buf = RingBuffer::<i32>::new(cap);
    let (mut prod, mut cons) = buf.split();

    let vs_20 = (123, 456);
    let push_fn_20 = |left: &mut [i32], right: &mut [i32]| -> Result<(usize, ()), ()> {
        assert_eq!(left.len(), 2);
        assert_eq!(right.len(), 0);
        left[0] = vs_20.0;
        left[1] = vs_20.1;
        Ok((2, ()))
    };

    assert_eq!(prod.push_access(push_fn_20).unwrap().unwrap(), (2, ()));

    let pop_fn_20 = |left: &mut [i32], right: &mut [i32]| -> Result<(usize, ()), ()> {
        assert_eq!(left.len(), 2);
        assert_eq!(right.len(), 0);
        assert_eq!(left[0], vs_20.0);
        assert_eq!(left[1], vs_20.1);
        Ok((2, ()))
    };

    assert_eq!(cons.pop_access(pop_fn_20).unwrap().unwrap(), (2, ()));


    let vs_11 = (123, 456);
    let push_fn_11 = |left: &mut [i32], right: &mut [i32]| -> Result<(usize, ()), ()> {
        assert_eq!(left.len(), 1);
        assert_eq!(right.len(), 1);
        left[0] = vs_11.0;
        right[0] = vs_11.1;
        Ok((2, ()))
    };

    assert_eq!(prod.push_access(push_fn_11).unwrap().unwrap(), (2, ()));

    let pop_fn_11 = |left: &mut [i32], right: &mut [i32]| -> Result<(usize, ()), ()> {
        assert_eq!(left.len(), 1);
        assert_eq!(right.len(), 1);
        assert_eq!(left[0], vs_11.0);
        assert_eq!(right[0], vs_11.1);
        Ok((2, ()))
    };

    assert_eq!(cons.pop_access(pop_fn_11).unwrap().unwrap(), (2, ()));
}
