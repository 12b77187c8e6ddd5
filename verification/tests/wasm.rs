use deep_filter::engine::EngineSetting;
use deep_filter::single::Single;
use deep_filter::wasm::{
    df_create, df_get_frame_length, df_process_frame, df_process_frame_persistent,
    df_set_atten_lim, df_set_post_filter_beta, df_store_frame,
};

#[test]
fn new_state_is_silent() {
    let st = df_create(3, 0.0f32);
    assert_eq!(df_get_frame_length(&st), 3);
    assert_eq!(st.input_buf, vec![0.0; 3]);
    assert_eq!(st.output_buf, vec![0.0; 3]);
}

#[test]
fn frame_to_process_is_the_beginning_of_the_input() {
    let st = df_create(3, 0.0f32);
    assert_eq!(df_process_frame(&st, &[1.0, 2.0, 3.0]), vec![1.0, 2.0, 3.0]);
    assert_eq!(df_process_frame(&st, &[1.0, 2.0, 3.0, 4.0]), vec![1.0, 2.0, 3.0]);
}

#[test]
fn processed_frame_is_stored() {
    let mut st = df_create(2, 0.0f32);
    df_store_frame(&mut st, &[0.5, 0.25]);
    assert_eq!(st.output_buf, vec![0.5, 0.25]);
    assert_eq!(st.input_buf, vec![0.0, 0.0]);
}

#[test]
fn persistent_frames_stay_in_place() {
    let mut st = df_create(4, 0.0f32);
    let input = st.input_buf.as_ptr() as usize;
    let output = st.output_buf.as_ptr() as usize;
    st.input_buf.fill(0.01);
    let lsnr = Single::from_bits(12.5f32.to_bits());
    assert_eq!(df_process_frame_persistent(&mut st, &[1.0, 2.0, 3.0, 4.0], lsnr), lsnr);
    assert_eq!(st.input_buf.as_ptr() as usize, input);
    assert_eq!(st.output_buf.as_ptr() as usize, output);
    assert_eq!(st.input_buf, vec![0.01; 4]);
    assert_eq!(st.output_buf, vec![1.0, 2.0, 3.0, 4.0]);
}

#[test]
fn settings_for_the_engine() {
    let v = Single::from_bits(0.02f32.to_bits());
    assert_eq!(df_set_atten_lim(v), EngineSetting::AttenLim(v));
    assert_eq!(df_set_post_filter_beta(v), EngineSetting::PfBeta(v));
}

#[test]
fn both_ways_agree() {
    // an engine that remembers the last sample of the frame before
    let engine = |last: &mut i32, frame: &[i32]| -> Vec<i32> {
        let out = frame.iter().map(|x| x + *last).collect();
        *last = frame[frame.len() - 1];
        out
    };
    let (mut e1, mut e2) = (0, 0);
    let mut st1 = df_create(2, 0);
    let mut st2 = df_create(2, 0);
    for frame in [[1, 2], [3, 4], [5, 6]] {
        st1.input_buf.copy_from_slice(&frame);
        let out = engine(&mut e1, &st1.input_buf);
        df_process_frame_persistent(&mut st1, &out, Single::from_bits(0));
        let given = df_process_frame(&st2, &frame);
        let out = engine(&mut e2, &given);
        df_store_frame(&mut st2, &out);
        assert_eq!(st1.output_buf, st2.output_buf);
        assert_eq!(st1.input_buf, frame);
        assert_eq!(st2.input_buf, vec![0, 0]);
        assert_eq!(e1, e2);
    }
    assert_eq!(st1.output_buf, vec![9, 10]);
}
